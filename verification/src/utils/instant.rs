//! Instants on the UTC time line and fixed time zones, as plain integers.

use vstd::prelude::*;

verus! {

/// Nanoseconds in a second.
pub const NANOS_PER_SEC: u32 = 1_000_000_000;

/// A point on the UTC time line: whole seconds since the Unix epoch and the
/// nanoseconds past that second.
///
/// Instants are ordered by `secs` first and `nanos` second. A reading of the
/// clock has `nanos` below `NANOS_PER_SEC`. Larger values are ordered like
/// any other, but a rule gives no answer when asked about such an instant.
#[derive(Clone, Copy, Debug, PartialEq, Eq, Structural)]
pub struct Instant {
    pub secs: i64,
    pub nanos: u32,
}

impl Instant {
    /// `self` lies strictly earlier than `other`.
    pub open spec fn before(self, other: Instant) -> bool {
        self.secs < other.secs || (self.secs == other.secs && self.nanos < other.nanos)
    }

    /// The instant `nanos` nanoseconds past second `secs` of the epoch.
    pub fn new(secs: i64, nanos: u32) -> (instant: Instant)
        ensures
            instant == (Instant { secs, nanos }),
    {
        Instant { secs, nanos }
    }

    /// Whether `self` lies strictly earlier than `other`.
    pub fn is_before(&self, other: &Instant) -> (earlier: bool)
        ensures
            earlier == self.before(*other),
    {
        self.secs < other.secs || (self.secs == other.secs && self.nanos < other.nanos)
    }
}

/// `Utc::now()`: the wall clock, as the seconds since the epoch and the
/// nanoseconds past them. Nothing is claimed of the value.
#[verifier::external_body]
pub(crate) fn wall_clock() -> Instant {
    let now = chrono::Utc::now();
    Instant { secs: now.timestamp(), nanos: now.timestamp_subsec_nanos() }
}

/// `Local::now().offset().local_minus_utc()`: how many seconds the machine's
/// own zone is ahead of UTC at this moment. Nothing is claimed of the value.
#[verifier::external_body]
pub(crate) fn local_offset() -> i32 {
    chrono::Local::now().offset().local_minus_utc()
}

/// Every entry of `instants` lies strictly before all later entries.
pub open spec fn strictly_ascending(instants: Seq<Instant>) -> bool {
    forall|i: int, j: int| 0 <= i < j < instants.len() ==> instants[i].before(instants[j])
}

/// `before` is a strict order: nothing precedes itself, and precedence chains.
pub proof fn lemma_before_is_strict_order(a: Instant, b: Instant, c: Instant)
    ensures
        !a.before(a),
        a.before(b) ==> !b.before(a),
        a.before(b) && b.before(c) ==> a.before(c),
        a.before(b) || b.before(a) || a == b,
{
}

/// Largest number of seconds, east or west, that a zone may differ from UTC.
pub const MAX_OFFSET_SECS: i32 = 86_399;

/// A fixed time zone: a constant number of seconds east of UTC.
#[derive(Clone, Copy, Debug, PartialEq, Eq, Structural)]
pub struct Zone {
    offset: i32,
}

impl Zone {
    #[verifier::type_invariant]
    spec fn in_range(self) -> bool {
        -MAX_OFFSET_SECS <= self.offset <= MAX_OFFSET_SECS
    }

    /// Seconds east of UTC.
    pub closed spec fn seconds(self) -> i32 {
        self.offset
    }

    /// The zone of UTC itself.
    pub fn utc() -> (zone: Zone)
        ensures
            zone.seconds() == 0,
    {
        Zone { offset: 0 }
    }

    /// The zone `seconds` east of UTC (west if negative), if that is less
    /// than a day away from UTC.
    pub fn east(seconds: i32) -> (zone: Option<Zone>)
        ensures
            zone is Some <==> -MAX_OFFSET_SECS <= seconds <= MAX_OFFSET_SECS,
            zone matches Some(z) ==> z.seconds() == seconds,
    {
        if -MAX_OFFSET_SECS <= seconds && seconds <= MAX_OFFSET_SECS {
            Some(Zone { offset: seconds })
        } else {
            None
        }
    }

    /// The machine's own zone as it stands at this moment, held fixed from
    /// then on: `east_or_utc` of the offset that the machine reports, which
    /// differs from machine to machine but is always less than a day.
    pub fn local() -> (zone: Zone)
        ensures
            -MAX_OFFSET_SECS <= zone.seconds() <= MAX_OFFSET_SECS,
    {
        Zone::east_or_utc(local_offset())
    }

    /// The zone `seconds` east of UTC where there is one, else UTC itself.
    pub fn east_or_utc(seconds: i32) -> (zone: Zone)
        ensures
            zone.seconds() == if -MAX_OFFSET_SECS <= seconds <= MAX_OFFSET_SECS {
                seconds
            } else {
                0
            },
    {
        match Zone::east(seconds) {
            Some(zone) => zone,
            None => Zone::utc(),
        }
    }

    /// Seconds east of UTC.
    pub fn offset(&self) -> (seconds: i32)
        ensures
            seconds == self.seconds(),
            -MAX_OFFSET_SECS <= seconds <= MAX_OFFSET_SECS,
    {
        proof {
            use_type_invariant(self);
        }
        self.offset
    }
}

} // verus!
