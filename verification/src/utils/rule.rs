//! Recurrence rules: cron expressions that produce future fire instants.

use vstd::prelude::*;
use std::str::FromStr;
use crate::utils::instant::lemma_before_is_strict_order;
use crate::utils::instant::strictly_ascending;
use crate::utils::instant::Instant;
use crate::utils::instant::Zone;
use crate::utils::instant::MAX_OFFSET_SECS;
use crate::utils::instant::NANOS_PER_SEC;
use crate::utils::lookahead::lemma_neighbours_ascend;

verus! {

/// `cron::Schedule`, a parsed cron expression. Nothing inside it is visible
/// here; it is only carried from the parser to the query.
#[verifier::external_type_specification]
#[verifier::external_body]
pub struct ExSchedule(cron::Schedule);

/// `cron::error::Error`, what the parser returns for a text it refuses.
#[verifier::external_type_specification]
#[verifier::external_body]
pub struct ExCronError(cron::error::Error);

/// The expression text that a `cron::Schedule` was parsed from and carries
/// with it, which is all that its answers depend on.
pub uninterp spec fn schedule_source(schedule: cron::Schedule) -> Seq<char>;

/// Whether `Schedule::from_str` of the `cron` crate accepts `expression`.
pub uninterp spec fn cron_accepts(expression: Seq<char>) -> bool;

/// What the `cron` crate answers when the schedule written as `expression` is
/// asked for its next fire time after the instant `(secs, nanos)`, with its
/// fields read in the zone `offset` seconds east of UTC: seconds and
/// nanoseconds since the epoch, or `None`.
pub uninterp spec fn cron_fire_after(expression: Seq<char>, offset: i32, secs: i64, nanos: u32) -> Option<(i64, u32)>;

/// Instants further than this many seconds from the epoch are never handed to
/// the `cron` crate: it adds a second to what it is given, and `chrono` has
/// no dates much beyond a quarter of a million years from the epoch.
pub const HORIZON_SECS: i64 = 8_000_000_000_000;

/// `Schedule::from_str`: succeeds exactly on the expressions that `cron`
/// accepts, and the schedule it returns keeps the expression text verbatim.
#[verifier::external_body]
fn parse_schedule(expression: &str) -> (parsed: Result<cron::Schedule, cron::error::Error>)
    ensures
        parsed is Ok <==> cron_accepts(expression@),
        parsed matches Ok(schedule) ==> schedule_source(schedule) == expression@,
{
    cron::Schedule::from_str(expression)
}

/// `Schedule::after(..).next()` on the instant `(secs, nanos)` seen in the
/// `FixedOffset` zone `offset` seconds east of UTC. The answer depends on
/// nothing but the schedule's text, the zone and the instant. Within the
/// bounds required here `chrono` has a date for the instant and the call
/// does not panic.
#[verifier::external_body]
fn fire_after(schedule: &cron::Schedule, offset: i32, secs: i64, nanos: u32) -> (fire: Option<(i64, u32)>)
    requires
        -MAX_OFFSET_SECS <= offset <= MAX_OFFSET_SECS,
        -HORIZON_SECS <= secs <= HORIZON_SECS,
        nanos < NANOS_PER_SEC,
    ensures
        fire == cron_fire_after(schedule_source(*schedule), offset, secs, nanos),
{
    let zone = chrono::FixedOffset::east_opt(offset)?;
    let start = chrono::DateTime::from_timestamp(secs, nanos)?.with_timezone(&zone);
    let next = schedule.after(&start).next()?;
    Some((next.timestamp(), next.timestamp_subsec_nanos()))
}

/// The `Display` text of a `cron::error::Error`. Nothing is claimed of it.
#[verifier::external_body]
fn error_text(error: &cron::error::Error) -> String {
    error.to_string()
}

/// Why a rule could not be turned into a job.
#[derive(Debug)]
pub enum ScheduleError {
    /// The text is not a cron expression; `reason` is what the parser said.
    InvalidScheduleExpression { expression: String, reason: String },
    /// The expression parses but has no occurrence left after the reference
    /// instant.
    ScheduleExhausted { expression: String },
}

impl ScheduleError {
    /// The expression that was refused.
    pub open spec fn expression(self) -> Seq<char> {
        match self {
            ScheduleError::InvalidScheduleExpression { expression, .. } => expression@,
            ScheduleError::ScheduleExhausted { expression } => expression@,
        }
    }

    /// What went wrong, in one line, without the parser's own words.
    pub fn to_string(&self) -> (line: String)
        ensures
            line@ == match *self {
                ScheduleError::InvalidScheduleExpression { expression, .. } =>
                    "parse schedule from str `"@ + expression@ + "` failed"@,
                ScheduleError::ScheduleExhausted { expression } =>
                    "schedule `"@ + expression@ + "` has no upcoming occurrence"@,
            },
    {
        match self {
            ScheduleError::InvalidScheduleExpression { expression, .. } => {
                let mut line = "parse schedule from str `".to_owned();
                line.append(expression.as_str());
                line.append("` failed");
                line
            },
            ScheduleError::ScheduleExhausted { expression } => {
                let mut line = "schedule `".to_owned();
                line.append(expression.as_str());
                line.append("` has no upcoming occurrence");
                line
            },
        }
    }

    /// What the parser said of a text it refused: the cause behind an
    /// invalid expression. An exhausted schedule has none.
    pub fn cause(&self) -> (cause: Option<&String>)
        ensures
            cause == match *self {
                ScheduleError::InvalidScheduleExpression { reason, .. } => Some(&reason),
                ScheduleError::ScheduleExhausted { .. } => None,
            },
    {
        match self {
            ScheduleError::InvalidScheduleExpression { reason, .. } => Some(reason),
            ScheduleError::ScheduleExhausted { .. } => None,
        }
    }

    /// The error with its cause, in one line for a log: `to_string`, then
    /// for an invalid expression a colon and what the parser said.
    pub fn message(&self) -> (text: String)
        ensures
            text@ == match *self {
                ScheduleError::InvalidScheduleExpression { expression, reason } =>
                    "parse schedule from str `"@ + expression@ + "` failed: "@ + reason@,
                ScheduleError::ScheduleExhausted { expression } =>
                    "schedule `"@ + expression@ + "` has no upcoming occurrence"@,
            },
    {
        match self {
            ScheduleError::InvalidScheduleExpression { expression, reason } => {
                let mut text = "parse schedule from str `".to_owned();
                text.append(expression.as_str());
                text.append("` failed: ");
                text.append(reason.as_str());
                text
            },
            ScheduleError::ScheduleExhausted { expression } => {
                let mut text = "schedule `".to_owned();
                text.append(expression.as_str());
                text.append("` has no upcoming occurrence");
                text
            },
        }
    }
}

/// A recurrence rule as contracts see it: the expression text and the zone,
/// in seconds east of UTC, in which its fields are read.
pub ghost struct RuleModel {
    pub source: Seq<char>,
    pub offset: i32,
}

/// `reference` is close enough to the epoch to be asked about.
pub open spec fn within_horizon(reference: Instant) -> bool {
    -HORIZON_SECS <= reference.secs <= HORIZON_SECS
}

/// A rule can be asked what follows `reference`: it lies within the horizon
/// and is a reading of the clock, with nanoseconds short of a full second.
pub open spec fn askable(reference: Instant) -> bool {
    within_horizon(reference) && reference.nanos < NANOS_PER_SEC
}

/// What is made of an answer to the question what follows `reference`: the
/// instant it names, if it names one and that one is strictly later.
pub open spec fn later_than(reference: Instant, candidate: Option<(i64, u32)>) -> Option<Instant> {
    match candidate {
        Some((secs, nanos)) if reference.before(Instant { secs, nanos }) => Some(
            Instant { secs, nanos },
        ),
        _ => None,
    }
}

impl RuleModel {
    /// The rule's first fire instant strictly after `reference`, if it has one.
    ///
    /// An answer of the `cron` crate that is not strictly later than
    /// `reference` counts as no answer. A reference that is not `askable`
    /// has nothing after it, whatever the rule.
    pub open spec fn next_after(self, reference: Instant) -> Option<Instant> {
        if askable(reference) {
            later_than(
                reference,
                cron_fire_after(self.source, self.offset, reference.secs, reference.nanos),
            )
        } else {
            None
        }
    }

    /// The instant from which the entry after `run` is computed, for a run
    /// that started at `from`: `from` itself while the run is empty, else
    /// the run's last entry.
    pub open spec fn cursor(from: Instant, run: Seq<Instant>) -> Instant {
        if run.len() == 0 {
            from
        } else {
            run.last()
        }
    }

    /// The rule's first `count` fire instants after `from`, earliest first;
    /// fewer where the rule runs dry before that.
    pub open spec fn upcoming(self, from: Instant, count: nat) -> Seq<Instant>
        decreases count,
    {
        if count == 0 {
            Seq::empty()
        } else {
            let shorter = self.upcoming(from, (count - 1) as nat);
            if shorter.len() < count - 1 {
                shorter
            } else {
                match self.next_after(Self::cursor(from, shorter)) {
                    Some(fire) => shorter.push(fire),
                    None => shorter,
                }
            }
        }
    }

    /// Each entry of `run` is the rule's next fire instant after the entry
    /// before it.
    pub open spec fn consecutive(self, run: Seq<Instant>) -> bool {
        forall|i: int| 0 <= i < run.len() - 1 ==> self.next_after(#[trigger] run[i]) == Some(run[i + 1])
    }
}

/// A parsed cron expression together with the fixed zone it is read in.
pub struct Rule {
    schedule: cron::Schedule,
    expression: String,
    zone: Zone,
}

impl View for Rule {
    type V = RuleModel;

    closed spec fn view(&self) -> RuleModel {
        RuleModel { source: self.expression@, offset: self.zone.seconds() }
    }
}

impl Rule {
    #[verifier::type_invariant]
    spec fn carries_its_text(self) -> bool {
        schedule_source(self.schedule) == self.expression@
    }

    /// Parses `expression` as the `cron` crate reads it: six fields, seconds
    /// first, with an optional seventh for the year, or one of the `@`
    /// shorthands. The fields are read in `zone`.
    ///
    /// A malformed expression is refused here, before any job is made of it.
    pub fn parse(expression: &str, zone: Zone) -> (parsed: Result<Rule, ScheduleError>)
        ensures
            parsed is Ok <==> cron_accepts(expression@),
            parsed matches Ok(rule) ==> rule@ == (RuleModel { source: expression@, offset: zone.seconds() }),
            parsed matches Err(error) ==> error is InvalidScheduleExpression && error.expression() == expression@,
    {
        match parse_schedule(expression) {
            Ok(schedule) => Ok(Rule { schedule, expression: expression.to_owned(), zone }),
            Err(error) => Err(
                ScheduleError::InvalidScheduleExpression {
                    expression: expression.to_owned(),
                    reason: error_text(&error),
                },
            ),
        }
    }

    /// The expression text the rule was parsed from.
    pub fn expression(&self) -> (text: &String)
        ensures
            text@ == self@.source,
    {
        &self.expression
    }

    /// The zone the rule's fields are read in.
    pub fn zone(&self) -> (zone: Zone)
        ensures
            zone.seconds() == self@.offset,
    {
        self.zone
    }

    /// The rule's next fire instant strictly after `reference`. `None` means
    /// that the rule has run dry, or that `reference` cannot be asked about:
    /// it lies beyond the horizon or its nanoseconds reach a full second.
    pub fn next_after(&self, reference: Instant) -> (fire: Option<Instant>)
        ensures
            fire == self@.next_after(reference),
            fire matches Some(instant) ==> reference.before(instant),
            !askable(reference) ==> fire is None,
    {
        proof {
            use_type_invariant(self);
        }
        if reference.secs < -HORIZON_SECS || reference.secs > HORIZON_SECS || reference.nanos
            >= NANOS_PER_SEC {
            return None;
        }
        Self::later(
            reference,
            fire_after(&self.schedule, self.zone.offset(), reference.secs, reference.nanos),
        )
    }

    /// Takes an answer to the question what follows `reference` at its word
    /// only where it names a strictly later instant.
    pub fn later(reference: Instant, candidate: Option<(i64, u32)>) -> (fire: Option<Instant>)
        ensures
            fire == later_than(reference, candidate),
            fire matches Some(instant) ==> reference.before(instant),
    {
        match candidate {
            Some((secs, nanos)) => {
                let fire = Instant::new(secs, nanos);
                if reference.is_before(&fire) {
                    Some(fire)
                } else {
                    None
                }
            },
            None => None,
        }
    }

    /// The rule's first `count` fire instants after `from`, earliest first.
    /// The run is shorter than `count` only where the rule has nothing left
    /// after its last entry, and empty for a `from` that cannot be asked
    /// about.
    pub fn upcoming(&self, from: Instant, count: usize) -> (run: Vec<Instant>)
        ensures
            run@ == self@.upcoming(from, count as nat),
            !askable(from) ==> run@.len() == 0,
    {
        let mut run: Vec<Instant> = Vec::new();
        let mut cursor = from;
        while run.len() < count
            invariant
                run.len() <= count,
                run@ == self@.upcoming(from, run.len() as nat),
                cursor == RuleModel::cursor(from, run@),
            decreases count - run.len(),
        {
            match self.next_after(cursor) {
                Some(fire) => {
                    run.push(fire);
                    cursor = fire;
                },
                None => {
                    proof {
                        lemma_upcoming_stays_dry(self@, from, run.len() as nat, count as nat);
                        lemma_nothing_after_unaskable(self@, from, count as nat);
                    }
                    return run;
                },
            }
        }
        proof {
            lemma_nothing_after_unaskable(self@, from, count as nat);
        }
        run
    }
}

/// Once a rule has run dry, asking for more instants gives no more: if the
/// first `reached` instants exist and nothing follows them, every longer
/// request returns those same instants.
pub proof fn lemma_upcoming_stays_dry(rule: RuleModel, from: Instant, reached: nat, count: nat)
    requires
        reached <= count,
        rule.upcoming(from, reached).len() == reached,
        rule.next_after(RuleModel::cursor(from, rule.upcoming(from, reached))) is None,
    ensures
        rule.upcoming(from, count) == rule.upcoming(from, reached),
    decreases count,
{
    if count > reached {
        lemma_upcoming_stays_dry(rule, from, reached, (count - 1) as nat);
    }
}

/// Nothing follows a reference that cannot be asked about, whatever the rule
/// and however many instants are asked for.
pub proof fn lemma_nothing_after_unaskable(rule: RuleModel, from: Instant, count: nat)
    ensures
        !askable(from) ==> rule.upcoming(from, count).len() == 0,
{
    if !askable(from) {
        lemma_upcoming_stays_dry(rule, from, 0, count);
    }
}

/// What `upcoming` returns: at most `count` instants, the first one the
/// rule's next after `from`, each later one the rule's next after the one
/// before, and fewer than `count` only where the rule has nothing after the
/// last of them.
pub proof fn lemma_upcoming_is_a_run(rule: RuleModel, from: Instant, count: nat)
    ensures
        rule.upcoming(from, count).len() <= count,
        rule.consecutive(rule.upcoming(from, count)),
        rule.upcoming(from, count).len() > 0 ==> rule.next_after(from) == Some(
            rule.upcoming(from, count)[0],
        ),
        rule.upcoming(from, count).len() < count ==> rule.next_after(
            RuleModel::cursor(from, rule.upcoming(from, count)),
        ) is None,
    decreases count,
{
    if count > 0 {
        lemma_upcoming_is_a_run(rule, from, (count - 1) as nat);
    }
}

/// Strict monotonic future: a rule never answers with an instant at or
/// before the reference it was asked about.
pub proof fn lemma_next_is_later(rule: RuleModel, reference: Instant)
    ensures
        rule.next_after(reference) matches Some(fire) ==> reference.before(fire),
{
}

/// A run in which every entry is the rule's next instant after the entry
/// before it is strictly ascending.
pub proof fn lemma_consecutive_ascends(rule: RuleModel, run: Seq<Instant>)
    requires
        rule.consecutive(run),
    ensures
        strictly_ascending(run),
{
    assert forall|j: int| 0 <= j < run.len() - 1 implies (#[trigger] run[j]).before(run[j + 1]) by {
        assert(rule.next_after(run[j]) == Some(run[j + 1]));
    }
    lemma_neighbours_ascend(run);
}

/// Every instant of `upcoming` lies strictly after `from`, and the instants
/// are strictly ascending.
pub proof fn lemma_upcoming_ascends(rule: RuleModel, from: Instant, count: nat)
    ensures
        strictly_ascending(rule.upcoming(from, count)),
        forall|i: int| 0 <= i < rule.upcoming(from, count).len() ==> from.before(
            #[trigger] rule.upcoming(from, count)[i],
        ),
{
    let run = rule.upcoming(from, count);
    lemma_upcoming_is_a_run(rule, from, count);
    lemma_consecutive_ascends(rule, run);
    assert forall|i: int| 0 <= i < run.len() implies from.before(#[trigger] run[i]) by {
        if i > 0 {
            lemma_before_is_strict_order(from, run[0], run[i]);
        }
    }
}

} // verus!
