//! A unit that keeps count of its runs.

use vstd::prelude::*;
use crate::utils::task::ExecutionError;
use crate::utils::task::Task;

verus! {

/// A unit of work together with the number of times it has been run. Running
/// it runs the unit inside and counts the run, whatever came of it. The
/// count stops at `u64::MAX`.
pub struct Counted<T: Task> {
    unit: T,
    runs: u64,
}

impl<T: Task> Counted<T> {
    /// The unit inside.
    pub closed spec fn inner(&self) -> T {
        self.unit
    }

    /// How many runs have been counted.
    pub closed spec fn runs_done(&self) -> nat {
        self.runs as nat
    }

    /// The count after one more run.
    pub open spec fn after_one_more(&self) -> nat {
        if self.runs_done() < u64::MAX {
            self.runs_done() + 1
        } else {
            self.runs_done()
        }
    }

    /// `unit`, not yet run.
    pub fn new(unit: T) -> (counted: Counted<T>)
        ensures
            counted.inner() == unit,
            counted.runs_done() == 0,
    {
        Counted { unit, runs: 0 }
    }

    /// How many runs have been counted.
    pub fn runs(&self) -> (runs: u64)
        ensures
            runs == self.runs_done(),
    {
        self.runs
    }

    /// The unit inside.
    pub fn unit(&self) -> (unit: &T)
        ensures
            *unit == self.inner(),
    {
        &self.unit
    }
}

impl<T: Task> Task for Counted<T> {
    open spec fn run_count(&self) -> nat {
        self.runs_done()
    }

    /// A run returns what the unit inside allows and counts one more.
    open spec fn allows(&self, outcome: Result<(), ExecutionError>, count_after: nat) -> bool {
        count_after == self.after_one_more() && exists|left: nat| #[trigger]
            self.inner().allows(outcome, left)
    }

    fn run(&mut self) -> (outcome: Result<(), ExecutionError>) {
        let outcome = self.unit.run();
        assert(old(self).inner().allows(outcome, self.unit.run_count()));
        if self.runs < u64::MAX {
            self.runs += 1;
        }
        outcome
    }
}

} // verus!
