//! The bounded buffer of a job's next fire instants.

use vstd::prelude::*;
use crate::utils::instant::lemma_before_is_strict_order;
use crate::utils::instant::strictly_ascending;
use crate::utils::instant::Instant;

verus! {

/// Number of upcoming fire instants that every job keeps buffered.
pub const POLL_MAX_SIZE: usize = 5;

/// A buffer is in order: it holds at most `POLL_MAX_SIZE` instants and they
/// are strictly ascending.
pub open spec fn in_order(pending: Seq<Instant>) -> bool {
    pending.len() <= POLL_MAX_SIZE && strictly_ascending(pending)
}

/// The buffer after one firing. The earliest instant is gone. `next` stands
/// at the end if the buffer was full and `next` is later than everything in
/// it; a buffer that was short already is not topped up. An empty buffer
/// stays empty.
pub open spec fn shifted(pending: Seq<Instant>, next: Option<Instant>) -> Seq<Instant> {
    if pending.len() == 0 {
        pending
    } else {
        match next {
            Some(fire) if pending.len() == POLL_MAX_SIZE && pending.last().before(fire) =>
                pending.drop_first().push(fire),
            _ => pending.drop_first(),
        }
    }
}

/// The next fire instants of one job, earliest first.
#[derive(Debug)]
pub struct Lookahead {
    instants: Vec<Instant>,
}

impl View for Lookahead {
    type V = Seq<Instant>;

    closed spec fn view(&self) -> Seq<Instant> {
        self.instants@
    }
}

impl Lookahead {
    /// A buffer holding `run`, if `run` can be one: it is not empty, no longer
    /// than `POLL_MAX_SIZE`, and strictly ascending.
    pub fn filled(run: Vec<Instant>) -> (made: Option<Lookahead>)
        ensures
            made is Some <==> run@.len() > 0 && in_order(run@),
            made matches Some(buffer) ==> buffer@ == run@,
    {
        if run.len() == 0 || run.len() > POLL_MAX_SIZE {
            return None;
        }
        let mut i: usize = 1;
        while i < run.len()
            invariant
                1 <= i <= run.len(),
                forall|j: int| 0 <= j < i - 1 ==> (#[trigger] run@[j]).before(run@[j + 1]),
            decreases run.len() - i,
        {
            if !run[i - 1].is_before(&run[i]) {
                proof {
                    lemma_before_is_strict_order(run@[i - 1], run@[i as int], run@[i as int]);
                }
                return None;
            }
            i += 1;
        }
        proof {
            lemma_neighbours_ascend(run@);
        }
        Some(Lookahead { instants: run })
    }

    /// How many instants are pending.
    pub fn len(&self) -> (count: usize)
        ensures
            count == self@.len(),
    {
        self.instants.len()
    }

    /// Whether the buffer holds all the instants it can.
    pub fn is_full(&self) -> (full: bool)
        ensures
            full == (self@.len() == POLL_MAX_SIZE),
    {
        self.instants.len() == POLL_MAX_SIZE
    }

    /// The earliest pending instant.
    pub fn earliest(&self) -> (head: Option<Instant>)
        ensures
            head == if self@.len() > 0 {
                Some(self@[0])
            } else {
                None
            },
    {
        if self.instants.len() > 0 {
            Some(self.instants[0])
        } else {
            None
        }
    }

    /// The latest pending instant.
    pub fn latest(&self) -> (tail: Option<Instant>)
        ensures
            tail == if self@.len() > 0 {
                Some(self@.last())
            } else {
                None
            },
    {
        if self.instants.len() > 0 {
            Some(self.instants[self.instants.len() - 1])
        } else {
            None
        }
    }

    /// Whether the earliest pending instant lies strictly before `now`.
    pub fn is_due(&self, now: Instant) -> (due: bool)
        ensures
            due == (self@.len() > 0 && self@[0].before(now)),
    {
        self.instants.len() > 0 && self.instants[0].is_before(&now)
    }

    /// Takes the earliest instant off and, where the buffer was full, puts
    /// `next` at the end, provided that `next` is later than all that is
    /// pending. Returns whether a full buffer was left short, which is how a
    /// rule that has run dry shows.
    pub fn shift(&mut self, next: Option<Instant>) -> (ran_dry: bool)
        ensures
            final(self)@ == shifted(old(self)@, next),
            ran_dry == (old(self)@.len() == POLL_MAX_SIZE && final(self)@.len() < POLL_MAX_SIZE),
    {
        let held = self.instants.len();
        if held == 0 {
            return false;
        }
        let latest = self.instants[held - 1];
        self.instants.remove(0);
        assert(self.instants@ == old(self).instants@.drop_first());
        if held != POLL_MAX_SIZE {
            return false;
        }
        match next {
            Some(fire) => {
                if latest.is_before(&fire) {
                    self.instants.push(fire);
                    false
                } else {
                    true
                }
            },
            None => true,
        }
    }

    /// The pending instants, earliest first.
    pub fn instants(&self) -> (pending: &Vec<Instant>)
        ensures
            pending@ == self@,
    {
        &self.instants
    }
}

/// A sequence in which every entry lies before its right neighbour is
/// strictly ascending.
pub proof fn lemma_neighbours_ascend(run: Seq<Instant>)
    requires
        forall|j: int| 0 <= j < run.len() - 1 ==> (#[trigger] run[j]).before(run[j + 1]),
    ensures
        strictly_ascending(run),
    decreases run.len(),
{
    if run.len() > 1 {
        let shorter = run.drop_last();
        assert forall|j: int| 0 <= j < shorter.len() - 1 implies (#[trigger] shorter[j]).before(
            shorter[j + 1],
        ) by {
            assert(run[j].before(run[j + 1]));
        }
        lemma_neighbours_ascend(shorter);
        let last = run.len() - 1;
        assert(run[last - 1].before(run[last]));
        assert forall|i: int, j: int| 0 <= i < j < run.len() implies run[i].before(run[j]) by {
            if j < last {
                assert(shorter[i].before(shorter[j]));
            } else if i < last - 1 {
                assert(shorter[i].before(shorter[last - 1]));
                lemma_before_is_strict_order(run[i], run[last - 1], run[last]);
            }
        }
    }
}

/// A firing keeps a buffer in order, whatever instant is offered as the
/// next: the buffer stays strictly ascending and within its bound, and all
/// that is left in it lies after the instant that was taken off.
pub proof fn lemma_shift_keeps_order(pending: Seq<Instant>, next: Option<Instant>)
    requires
        in_order(pending),
    ensures
        in_order(shifted(pending, next)),
        pending.len() > 0 ==> shifted(pending, next).len() == pending.len() || shifted(
            pending,
            next,
        ).len() == pending.len() - 1,
        pending.len() > 0 ==> forall|i: int|
            0 <= i < shifted(pending, next).len() ==> pending[0].before(
                #[trigger] shifted(pending, next)[i],
            ),
{
    if pending.len() > 0 {
        let after = shifted(pending, next);
        let rest = pending.drop_first();
        assert forall|i: int| 0 <= i < rest.len() implies #[trigger] rest[i] == pending[i + 1] by {}
        assert forall|i: int| 0 <= i < after.len() implies pending[0].before(
            #[trigger] after[i],
        ) by {
            if i < rest.len() {
                assert(after[i] == pending[i + 1]);
            } else {
                lemma_before_is_strict_order(pending[0], pending.last(), after[i]);
            }
        }
        assert forall|i: int, j: int| 0 <= i < j < after.len() implies after[i].before(after[j]) by {
            assert(after[i] == pending[i + 1]);
            if j < rest.len() {
                assert(after[j] == pending[j + 1]);
            } else {
                lemma_before_is_strict_order(pending[i + 1], pending.last(), after[j]);
            }
        }
    }
}

} // verus!
