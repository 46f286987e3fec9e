//! Jobs and the scheduler that fires them.
//!
//! A job binds a unit of work to a recurrence rule and keeps the rule's next
//! few fire instants in a buffer. The scheduler is polled: on every tick it
//! looks at the head of each job's buffer, and each job whose head lies in the
//! past has its buffer advanced and then its unit run. A failing unit is
//! reported and never stops the tick.
//!
//! The buffer is advanced before the unit runs, so one nominal fire instant
//! is never detected twice. A unit that is still running on behalf of an
//! earlier instant is not waited for: where units are dispatched in the
//! background, two runs of the same job may overlap.

use vstd::prelude::*;
use crate::utils::instant::wall_clock;
use crate::utils::instant::strictly_ascending;
use crate::utils::instant::Instant;
use crate::utils::instant::Zone;
use crate::utils::lookahead::lemma_shift_keeps_order;
use crate::utils::lookahead::shifted;
use crate::utils::lookahead::Lookahead;
use crate::utils::lookahead::POLL_MAX_SIZE;
use crate::utils::rule::askable;
use crate::utils::rule::cron_accepts;
use crate::utils::rule::lemma_consecutive_ascends;
use crate::utils::rule::lemma_nothing_after_unaskable;
use crate::utils::rule::lemma_upcoming_ascends;
use crate::utils::rule::lemma_upcoming_is_a_run;
use crate::utils::rule::Rule;
use crate::utils::rule::RuleModel;
use crate::utils::rule::ScheduleError;

verus! {

/// Seconds between two polls of the scheduler loop.
pub const POLL_INTERVAL: u64 = 1;

/// Why a unit of work failed. The scheduler hands the cause on and never
/// looks into it.
#[derive(Debug)]
pub struct ExecutionError {
    pub cause: String,
}

/// A unit of work that the scheduler runs whenever its job fires. It must be
/// safe to run any number of times.
pub trait Task {
    /// How many runs the unit has behind it, for a unit that keeps count. A
    /// unit that keeps none stands at 0 throughout.
    open spec fn run_count(&self) -> nat {
        0
    }

    /// Whether a run of the unit, in the state it is in, may return `outcome`
    /// and leave the unit with a count of `count_after`. A unit that says
    /// nothing allows everything.
    open spec fn allows(&self, outcome: Result<(), ExecutionError>, count_after: nat) -> bool {
        true
    }

    /// Does the work once. An error is reported by the scheduler and has no
    /// other consequence.
    fn run(&mut self) -> (outcome: Result<(), ExecutionError>)
        ensures
            old(self).allows(outcome, final(self).run_count()),
    ;
}

/// A boxed unit is a unit: running it runs what is in the box, and what
/// comes back is what the unit in the box returned. With this a scheduler
/// can hold units of different kinds, each behind `Box<dyn Task>`.
impl<T: Task + ?Sized> Task for Box<T> {
    open spec fn run_count(&self) -> nat {
        (**self).run_count()
    }

    open spec fn allows(&self, outcome: Result<(), ExecutionError>, count_after: nat) -> bool {
        (**self).allows(outcome, count_after)
    }

    fn run(&mut self) -> (outcome: Result<(), ExecutionError>) {
        (**self).run()
    }
}

/// A job as contracts see it: its name, its rule and its buffer of pending
/// fire instants, earliest first.
pub ghost struct SlotModel {
    pub name: Seq<char>,
    pub rule: RuleModel,
    pub pending: Seq<Instant>,
}

impl SlotModel {
    /// The buffer holds at most `POLL_MAX_SIZE` instants, each the rule's
    /// next after the one before it, and it is short only where the rule has
    /// nothing after its last entry.
    pub open spec fn wf(self) -> bool {
        &&& self.pending.len() <= POLL_MAX_SIZE
        &&& self.rule.consecutive(self.pending)
        &&& 0 < self.pending.len() < POLL_MAX_SIZE ==> self.rule.next_after(self.pending.last())
            is None
    }

    /// The job is due at `now`: its earliest pending instant is strictly
    /// before `now`.
    pub open spec fn due(self, now: Instant) -> bool {
        self.pending.len() > 0 && self.pending[0].before(now)
    }

    /// The instant that an advance appends: the rule's next after the latest
    /// pending one. A buffer that is already short is never topped up again.
    pub open spec fn refill(self) -> Option<Instant> {
        if self.pending.len() == POLL_MAX_SIZE {
            self.rule.next_after(self.pending.last())
        } else {
            None
        }
    }

    /// The buffer is full and the next advance will find the rule dry.
    pub open spec fn runs_dry(self) -> bool {
        self.pending.len() == POLL_MAX_SIZE && self.refill() is None
    }

    /// The job after one firing: the earliest pending instant is gone and the
    /// refill, if there is one, stands at the end. An empty buffer stays
    /// empty.
    pub open spec fn advance(self) -> SlotModel {
        SlotModel { pending: shifted(self.pending, self.refill()), ..self }
    }

    /// The job after `count` firings.
    pub open spec fn advance_times(self, count: nat) -> SlotModel
        decreases count,
    {
        if count == 0 {
            self
        } else {
            self.advance_times((count - 1) as nat).advance()
        }
    }

    /// The job that registering `rule` under `name` at `reference` creates.
    pub open spec fn created(name: Seq<char>, rule: RuleModel, reference: Instant) -> SlotModel {
        SlotModel { name, rule, pending: rule.upcoming(reference, POLL_MAX_SIZE as nat) }
    }
}

/// One job: a unit of work, the rule that says when it fires, and the rule's
/// next fire instants.
pub struct Cron<T: Task> {
    task: T,
    rule: Rule,
    upcomings: Lookahead,
    task_name: String,
}

impl<T: Task> View for Cron<T> {
    type V = SlotModel;

    closed spec fn view(&self) -> SlotModel {
        SlotModel { name: self.task_name@, rule: self.rule@, pending: self.upcomings@ }
    }
}

impl<T: Task> Cron<T> {
    /// The unit of work that the job owns.
    pub closed spec fn unit(&self) -> T {
        self.task
    }

    /// Binds `task` to `rule` under `task_name` and buffers the rule's first
    /// `POLL_MAX_SIZE` fire instants after the present moment.
    ///
    /// Fails where the rule has no occurrence left. Which instants are
    /// buffered depends on the clock: they are those that `starting_at`
    /// buffers for some reference instant.
    pub fn new(task: T, rule: Rule, task_name: String) -> (made: Result<Cron<T>, ScheduleError>)
        ensures
            exists|reference: Instant| #[trigger] Self::made_at(made, task, rule@, task_name@, reference),
    {
        let reference = wall_clock();
        let made = Self::starting_at(task, rule, task_name, reference);
        assert(Self::made_at(made, task, rule@, task_name@, reference));
        made
    }

    /// `made` is what `starting_at` returns for these arguments.
    pub open spec fn made_at(
        made: Result<Cron<T>, ScheduleError>,
        task: T,
        rule: RuleModel,
        name: Seq<char>,
        reference: Instant,
    ) -> bool {
        let first = SlotModel::created(name, rule, reference);
        match made {
            Ok(slot) => first.pending.len() > 0 && slot@ == first && slot.unit() == task,
            Err(error) => first.pending.len() == 0 && error is ScheduleExhausted
                && error.expression() == rule.source,
        }
    }

    /// Binds `task` to `rule` under `task_name` and buffers the rule's first
    /// `POLL_MAX_SIZE` fire instants after `reference`.
    ///
    /// Fails exactly where the rule has no fire instant after `reference`.
    /// That is so for a rule that has run dry, and for every rule where
    /// `reference` cannot be asked about: the error is the same.
    pub fn starting_at(task: T, rule: Rule, task_name: String, reference: Instant) -> (made: Result<
        Cron<T>,
        ScheduleError,
    >)
        ensures
            Self::made_at(made, task, rule@, task_name@, reference),
            made matches Ok(slot) ==> slot@.wf(),
            !askable(reference) ==> made is Err,
    {
        let run = rule.upcoming(reference, POLL_MAX_SIZE);
        proof {
            lemma_upcoming_is_a_run(rule@, reference, POLL_MAX_SIZE as nat);
            lemma_consecutive_ascends(rule@, run@);
            lemma_nothing_after_unaskable(rule@, reference, POLL_MAX_SIZE as nat);
        }
        match Lookahead::filled(run) {
            Some(upcomings) => Ok(Cron { task, rule, upcomings, task_name }),
            None => Err(ScheduleError::ScheduleExhausted { expression: rule.expression().clone() }),
        }
    }

    /// Whether the job is due at `now`: its earliest pending instant is
    /// strictly before `now`.
    pub fn peek_due(&self, now: Instant) -> (due: bool)
        ensures
            due == self@.due(now),
    {
        self.upcomings.is_due(now)
    }

    /// Takes the earliest pending instant off the buffer and appends the
    /// rule's next instant after the latest pending one. Returns whether the
    /// rule ran dry on this very advance, which happens at most once in a
    /// job's life.
    ///
    /// The unit is not touched.
    pub fn advance(&mut self) -> (ran_dry: bool)
        ensures
            final(self)@ == old(self)@.advance(),
            final(self).unit() == old(self).unit(),
            ran_dry == old(self)@.runs_dry(),
    {
        let next = match self.upcomings.latest() {
            Some(latest) if self.upcomings.is_full() => self.rule.next_after(latest),
            _ => None,
        };
        self.upcomings.shift(next)
    }

    /// Runs the unit once and hands back what it returned: an outcome, and a
    /// count of runs afterwards, that the unit as it was allows of one run.
    /// The job's name, rule and buffer are as before.
    pub fn run(&mut self) -> (outcome: Result<(), ExecutionError>)
        ensures
            final(self)@ == old(self)@,
            old(self).unit().allows(outcome, final(self).unit().run_count()),
    {
        self.task.run()
    }

    /// The job's name.
    pub fn task_name(&self) -> (name: &String)
        ensures
            name@ == self@.name,
    {
        &self.task_name
    }

    /// The cron expression that drives the job.
    pub fn schedule_description(&self) -> (text: &String)
        ensures
            text@ == self@.rule.source,
    {
        self.rule.expression()
    }

    /// The rule that drives the job.
    pub fn rule(&self) -> (rule: &Rule)
        ensures
            rule@ == self@.rule,
    {
        &self.rule
    }

    /// The pending fire instants, earliest first.
    pub fn upcomings(&self) -> (pending: &Vec<Instant>)
        ensures
            pending@ == self@.pending,
    {
        self.upcomings.instants()
    }

    /// The unit of work.
    pub fn task(&self) -> (task: &T)
        ensures
            *task == self.unit(),
    {
        &self.task
    }

    /// Whether the rule has run dry: the buffer is no longer full and will
    /// only shrink.
    pub fn is_exhausted(&self) -> (short: bool)
        ensures
            short == (self@.pending.len() < POLL_MAX_SIZE),
    {
        self.upcomings.len() < POLL_MAX_SIZE
    }
}

/// What one tick did with one due job.
#[derive(Debug)]
pub struct Firing {
    /// The job's place in registration order.
    pub slot: usize,
    /// The job's rule ran dry on this firing: from now on its buffer only
    /// shrinks, and once it is empty the job no longer fires.
    pub exhausted: bool,
    /// What went wrong in the unit, if anything did.
    pub failure: Option<ExecutionError>,
}

impl Firing {
    /// What the unit returned, as the record has it.
    pub open spec fn outcome(self) -> Result<(), ExecutionError> {
        match self.failure {
            Some(error) => Err(error),
            None => Ok(()),
        }
    }

    /// The record of a firing of job `slot` whose unit returned `outcome`.
    pub fn record(slot: usize, exhausted: bool, outcome: Result<(), ExecutionError>) -> (firing:
        Firing)
        ensures
            firing.slot == slot,
            firing.exhausted == exhausted,
            firing.failure == match outcome {
                Ok(_) => None,
                Err(error) => Some(error),
            },
            firing.outcome() == outcome,
    {
        match outcome {
            Ok(done) => {
                assert(done == ());
                Firing { slot, exhausted, failure: None }
            },
            Err(error) => Firing { slot, exhausted, failure: Some(error) },
        }
    }
}

/// The places of the jobs that a report speaks of, in the report's order.
pub open spec fn fired(report: Seq<Firing>) -> Seq<int> {
    Seq::new(report.len(), |k: int| report[k].slot as int)
}

/// The places of the jobs that are due at `now`, in ascending order.
pub open spec fn due_slots(slots: Seq<SlotModel>, now: Instant) -> Seq<int>
    decreases slots.len(),
{
    if slots.len() == 0 {
        Seq::empty()
    } else {
        let earlier = due_slots(slots.drop_last(), now);
        if slots.last().due(now) {
            earlier.push(slots.len() - 1)
        } else {
            earlier
        }
    }
}

/// The jobs after a tick at `now`: each due job advanced once, every other
/// job as it was.
pub open spec fn tick_model(slots: Seq<SlotModel>, now: Instant) -> Seq<SlotModel> {
    Seq::new(
        slots.len(),
        |i: int|
            if slots[i].due(now) {
                slots[i].advance()
            } else {
                slots[i]
            },
    )
}

/// Every job of `slots` is well formed.
pub open spec fn all_wf(slots: Seq<SlotModel>) -> bool {
    forall|i: int| 0 <= i < slots.len() ==> (#[trigger] slots[i]).wf()
}

/// The scheduler: jobs in the order in which they were registered.
pub struct Manager<T: Task> {
    crons: Vec<Cron<T>>,
}

impl<T: Task> View for Manager<T> {
    type V = Seq<SlotModel>;

    closed spec fn view(&self) -> Seq<SlotModel> {
        Seq::new(self.crons.len() as nat, |i: int| self.crons[i]@)
    }
}

impl<T: Task> Default for Manager<T> {
    /// A scheduler without jobs.
    fn default() -> (manager: Manager<T>)
        ensures
            manager@ == Seq::<SlotModel>::empty(),
            manager.units() == Seq::<T>::empty(),
    {
        Manager { crons: Vec::new() }
    }
}

impl<T: Task> Manager<T> {
    /// The units of work, in registration order.
    pub closed spec fn units(&self) -> Seq<T> {
        Seq::new(self.crons.len() as nat, |i: int| self.crons[i].unit())
    }

    /// A scheduler without jobs.
    pub fn new() -> (manager: Manager<T>)
        ensures
            manager@ == Seq::<SlotModel>::empty(),
            manager.units() == Seq::<T>::empty(),
    {
        Self::default()
    }

    /// Registers `task` under `name`, to fire as the expression `cron` says
    /// when read in `zone`, counting from `reference`.
    ///
    /// Succeeds exactly where `cron` is a valid expression with at least one
    /// fire instant after `reference`; the new job then stands last. On
    /// failure the scheduler is as it was.
    ///
    /// A `reference` that cannot be asked about, because it lies beyond the
    /// horizon or is no reading of the clock, has no fire instant after it:
    /// a valid expression is then refused as `ScheduleExhausted`, though the
    /// rule itself may have occurrences left.
    pub fn register(&mut self, cron: &str, name: &str, task: T, zone: Zone, reference: Instant) -> (done:
        Result<(), ScheduleError>)
        ensures
            done is Ok <==> Self::registers(cron@, zone, reference),
            done is Ok ==> final(self)@ == old(self)@.push(Self::registered(cron@, name@, zone, reference))
                && final(self).units() == old(self).units().push(task),
            done matches Err(error) ==> final(self)@ == old(self)@ && final(self).units() == old(
                self,
            ).units() && error.expression() == cron@ && (error is InvalidScheduleExpression
                <==> !cron_accepts(cron@)),
            all_wf(old(self)@) ==> all_wf(final(self)@),
            !askable(reference) ==> done is Err,
    {
        let rule = match Rule::parse(cron, zone) {
            Ok(rule) => rule,
            Err(error) => {
                return Err(error);
            },
        };
        match Cron::starting_at(task, rule, name.to_owned(), reference) {
            Ok(slot) => {
                self.crons.push(slot);
                assert(self@ == old(self)@.push(slot@));
                assert(self.units() == old(self).units().push(task));
                Ok(())
            },
            Err(error) => Err(error),
        }
    }

    /// Whether registering `cron` in `zone` at `reference` succeeds.
    pub open spec fn registers(cron: Seq<char>, zone: Zone, reference: Instant) -> bool {
        cron_accepts(cron) && Self::registered(cron, Seq::empty(), zone, reference).pending.len() > 0
    }

    /// The job that a successful registration appends.
    pub open spec fn registered(cron: Seq<char>, name: Seq<char>, zone: Zone, reference: Instant) -> SlotModel {
        SlotModel::created(name, RuleModel { source: cron, offset: zone.seconds() }, reference)
    }

    /// Registers `task` under `name`, to fire as `cron` says in the machine's
    /// own zone, counting from the present moment, and hands the scheduler
    /// back for the next call.
    ///
    /// An invalid expression is refused whatever the hour. For a valid one
    /// the outcome is that of `register` for some zone and some reference
    /// instant.
    pub fn add(self, cron: &str, name: &str, task: T) -> (added: Result<Manager<T>, ScheduleError>)
        ensures
            !cron_accepts(cron@) ==> added is Err,
            added matches Err(error) ==> error.expression() == cron@ && (error
                is InvalidScheduleExpression <==> !cron_accepts(cron@)),
            exists|zone: Zone, reference: Instant| #[trigger]
                Self::added_at(added, self, cron@, name@, task, zone, reference),
    {
        let zone = Zone::local();
        let reference = wall_clock();
        let mut manager = self;
        let done = manager.register(cron, name, task, zone, reference);
        let added = match done {
            Ok(_) => Ok(manager),
            Err(error) => Err(error),
        };
        assert(Self::added_at(added, self, cron@, name@, task, zone, reference));
        added
    }

    /// `added` is what registering in `zone` at `reference` makes of `before`.
    pub open spec fn added_at(
        added: Result<Manager<T>, ScheduleError>,
        before: Manager<T>,
        cron: Seq<char>,
        name: Seq<char>,
        task: T,
        zone: Zone,
        reference: Instant,
    ) -> bool {
        match added {
            Ok(manager) => Self::registers(cron, zone, reference) && manager@ == before@.push(
                Self::registered(cron, name, zone, reference),
            ) && manager.units() == before.units().push(task) && (all_wf(before@) ==> all_wf(
                manager@,
            )),
            Err(_) => !Self::registers(cron, zone, reference),
        }
    }

    /// How many jobs are registered.
    pub fn len(&self) -> (count: usize)
        ensures
            count == self@.len(),
    {
        self.crons.len()
    }

    /// The job at place `index` of the registration order.
    pub fn slot(&self, index: usize) -> (found: Option<&Cron<T>>)
        ensures
            found is Some <==> index < self@.len(),
            found matches Some(slot) ==> slot@ == self@[index as int] && slot.unit() == self.units()[index as int],
    {
        if index < self.crons.len() {
            Some(&self.crons[index])
        } else {
            None
        }
    }

    /// The name and the cron expression of every job, in registration order.
    pub fn describe(&self) -> (listing: Vec<(String, String)>)
        ensures
            listing.len() == self@.len(),
            forall|i: int|
                0 <= i < listing.len() ==> (#[trigger] listing[i]).0@ == self@[i].name
                    && listing[i].1@ == self@[i].rule.source,
    {
        let mut listing: Vec<(String, String)> = Vec::new();
        let mut i: usize = 0;
        while i < self.crons.len()
            invariant
                i <= self.crons.len(),
                listing.len() == i,
                forall|j: int|
                    0 <= j < i ==> (#[trigger] listing[j]).0@ == self@[j].name && listing[j].1@
                        == self@[j].rule.source,
            decreases self.crons.len() - i,
        {
            let slot = &self.crons[i];
            listing.push((slot.task_name().clone(), slot.schedule_description().clone()));
            i += 1;
        }
        listing
    }

    /// One poll at `now`. Every job whose earliest pending instant lies
    /// strictly before `now` fires once, in registration order: its buffer is
    /// advanced, then its unit is run. No other job is touched.
    ///
    /// The report has one entry for each job that fired, in the same order.
    /// Which jobs fire depends on the buffers and on `now` alone: a unit
    /// that fails is recorded in its entry and changes nothing for the jobs
    /// after it.
    ///
    /// Each entry holds what the job's unit returned, and the unit is left
    /// as that one run left it: outcome and count of runs are what the unit,
    /// as it was before the tick, allows of a single run.
    pub fn tick(&mut self, now: Instant) -> (report: Vec<Firing>)
        ensures
            final(self)@ == tick_model(old(self)@, now),
            fired(report@) == due_slots(old(self)@, now),
            forall|k: int|
                0 <= k < report.len() ==> (#[trigger] report[k]).exhausted == old(self)@[report[k].slot as int].runs_dry(),
            final(self).units().len() == old(self).units().len(),
            forall|i: int|
                0 <= i < old(self)@.len() && !old(self)@[i].due(now) ==> #[trigger] final(self).units()[i]
                    == old(self).units()[i],
            forall|k: int|
                0 <= k < report.len() ==> old(self).units()[(#[trigger] report[k]).slot as int].allows(
                    report[k].outcome(),
                    final(self).units()[report[k].slot as int].run_count(),
                ),
    {
        let mut report: Vec<Firing> = Vec::new();
        let count = self.crons.len();
        let mut i: usize = 0;
        while i < count
            invariant
                i <= count,
                count == old(self)@.len(),
                self@.len() == count,
                self.units().len() == count,
                forall|j: int| 0 <= j < i ==> #[trigger] self@[j] == tick_model(old(self)@, now)[j],
                forall|j: int| i <= j < count ==> #[trigger] self@[j] == old(self)@[j],
                forall|j: int|
                    0 <= j < count && !old(self)@[j].due(now) ==> #[trigger] self.units()[j] == old(
                        self,
                    ).units()[j],
                fired(report@) == due_slots(old(self)@.take(i as int), now),
                forall|k: int|
                    0 <= k < report.len() ==> (#[trigger] report[k]).exhausted == old(self)@[report[k].slot as int].runs_dry(),
                forall|k: int| 0 <= k < report.len() ==> (#[trigger] report[k]).slot < i,
                forall|j: int| i <= j < count ==> #[trigger] self.units()[j] == old(self).units()[j],
                forall|k: int|
                    0 <= k < report.len() ==> old(self).units()[(#[trigger] report[k]).slot as int].allows(
                        report[k].outcome(),
                        self.units()[report[k].slot as int].run_count(),
                    ),
            decreases count - i,
        {
            let ghost before = *self;
            let ghost reported = report@;
            assert(old(self)@.take(i + 1).drop_last() == old(self)@.take(i as int));
            assert(before.units()[i as int] == old(self).units()[i as int]);
            if self.crons[i].peek_due(now) {
                let exhausted = self.crons[i].advance();
                let ghost unit = self.crons[i as int].unit();
                assert(unit == old(self).units()[i as int]);
                let outcome = self.crons[i].run();
                assert(unit.allows(outcome, self.units()[i as int].run_count()));
                report.push(Firing::record(i, exhausted, outcome));
                assert(fired(report@) == fired(reported).push(i as int));
                assert(forall|k: int| 0 <= k < reported.len() ==> report@[k] == reported[k]);
            }
            proof {
                assert(self.crons@.len() == count);
                assert forall|j: int| 0 <= j < count && j != i implies self.crons@[j]
                    == before.crons@[j] by {}
                assert(before@[i as int] == old(self)@[i as int]);
                assert(self@[i as int] == tick_model(old(self)@, now)[i as int]);
                assert forall|j: int| 0 <= j < i implies #[trigger] self@[j] == tick_model(
                    old(self)@,
                    now,
                )[j] by {
                    assert(self@[j] == before@[j]);
                }
                assert forall|j: int| i < j < count implies #[trigger] self@[j] == old(self)@[j] by {
                    assert(self@[j] == before@[j]);
                }
                assert forall|j: int| 0 <= j < count && !old(self)@[j].due(now) implies #[trigger]
                    self.units()[j] == old(self).units()[j] by {
                    assert(self.units()[j] == before.units()[j]);
                }
                assert forall|j: int| i < j < count implies #[trigger] self.units()[j] == old(
                    self,
                ).units()[j] by {
                    assert(self.units()[j] == before.units()[j]);
                }
                assert forall|k: int| 0 <= k < report.len() implies old(self).units()[(#[trigger]
                    report[k]).slot as int].allows(
                    report[k].outcome(),
                    self.units()[report[k].slot as int].run_count(),
                ) by {
                    if k < reported.len() {
                        assert(report[k] == reported[k]);
                        assert(self.units()[reported[k].slot as int] == before.units()[reported[k].slot as int]);
                    }
                }
            }
            i += 1;
        }
        assert(old(self)@.take(count as int) == old(self)@);
        assert(self@ == tick_model(old(self)@, now));
        report
    }
}

/// One firing keeps a job well formed: the buffer stays strictly ascending,
/// everything left in it lies after the instant that was taken off, and it
/// is full again unless the rule had nothing more to give.
pub proof fn lemma_advance_keeps_window(slot: SlotModel)
    requires
        slot.wf(),
    ensures
        slot.advance().wf(),
        slot.advance().name == slot.name,
        slot.advance().rule == slot.rule,
        strictly_ascending(slot.advance().pending),
        slot.pending.len() == POLL_MAX_SIZE && slot.refill() is Some ==> slot.advance().pending.len()
            == POLL_MAX_SIZE,
        slot.pending.len() > 0 ==> forall|i: int|
            0 <= i < slot.advance().pending.len() ==> slot.pending[0].before(
                #[trigger] slot.advance().pending[i],
            ),
{
    let after = slot.advance();
    lemma_consecutive_ascends(slot.rule, slot.pending);
    lemma_shift_keeps_order(slot.pending, slot.refill());
    if slot.pending.len() > 0 {
        assert forall|i: int| 0 <= i < after.pending.len() - 1 implies slot.rule.next_after(
            #[trigger] after.pending[i],
        ) == Some(after.pending[i + 1]) by {
            assert(after.pending[i] == slot.pending[i + 1]);
            if i + 2 < slot.pending.len() {
                assert(after.pending[i + 1] == slot.pending[i + 2]);
            }
        }
        if 0 < after.pending.len() < POLL_MAX_SIZE {
            assert(after.pending.last() == slot.pending.last());
        }
    }
}

/// However often a job fires, it stays well formed: its buffer is strictly
/// ascending and holds exactly `POLL_MAX_SIZE` instants, unless the rule has
/// nothing after the last of them or the buffer has run empty.
pub proof fn lemma_advances_keep_window(slot: SlotModel, count: nat)
    requires
        slot.wf(),
    ensures
        slot.advance_times(count).wf(),
        slot.advance_times(count).name == slot.name,
        slot.advance_times(count).rule == slot.rule,
        strictly_ascending(slot.advance_times(count).pending),
        slot.advance_times(count).pending.len() == POLL_MAX_SIZE || slot.advance_times(
            count,
        ).pending.len() == 0 || slot.rule.next_after(slot.advance_times(count).pending.last())
            is None,
    decreases count,
{
    if count == 0 {
        lemma_consecutive_ascends(slot.rule, slot.pending);
    } else {
        lemma_advances_keep_window(slot, (count - 1) as nat);
        lemma_advance_keeps_window(slot.advance_times((count - 1) as nat));
    }
}

/// A freshly created job is well formed and its buffer lies strictly after
/// the reference instant.
pub proof fn lemma_created_is_wf(name: Seq<char>, rule: RuleModel, reference: Instant)
    ensures
        SlotModel::created(name, rule, reference).wf(),
        forall|i: int|
            0 <= i < SlotModel::created(name, rule, reference).pending.len() ==> reference.before(
                #[trigger] SlotModel::created(name, rule, reference).pending[i],
            ),
{
    lemma_upcoming_is_a_run(rule, reference, POLL_MAX_SIZE as nat);
    lemma_upcoming_ascends(rule, reference, POLL_MAX_SIZE as nat);
}

/// The jobs that fire in a tick are exactly the due ones, each once: the list
/// of fired places is strictly ascending, names only due jobs, and names
/// every due job. How far in the past a job's earliest instant lies makes no
/// difference.
pub proof fn lemma_due_slots_exact(slots: Seq<SlotModel>, now: Instant)
    ensures
        forall|k: int|
            0 <= k < due_slots(slots, now).len() ==> 0 <= #[trigger] due_slots(slots, now)[k]
                < slots.len() && slots[due_slots(slots, now)[k]].due(now),
        forall|k: int, l: int|
            0 <= k < l < due_slots(slots, now).len() ==> due_slots(slots, now)[k] < due_slots(
                slots,
                now,
            )[l],
        forall|i: int|
            0 <= i < slots.len() && (#[trigger] slots[i]).due(now) ==> due_slots(slots, now).contains(i),
    decreases slots.len(),
{
    if slots.len() > 0 {
        let front = slots.drop_last();
        let earlier = due_slots(front, now);
        let all = due_slots(slots, now);
        lemma_due_slots_exact(front, now);
        assert forall|k: int| 0 <= k < all.len() implies 0 <= #[trigger] all[k] < slots.len()
            && slots[all[k]].due(now) by {
            if k < earlier.len() {
                assert(all[k] == earlier[k]);
                assert(front[earlier[k]] == slots[earlier[k]]);
            }
        }
        assert forall|k: int, l: int| 0 <= k < l < all.len() implies all[k] < all[l] by {
            assert(all[k] == earlier[k]);
            if l < earlier.len() {
                assert(all[l] == earlier[l]);
            }
        }
        assert forall|i: int| 0 <= i < slots.len() && (#[trigger] slots[i]).due(now) implies all.contains(
            i,
        ) by {
            if i < front.len() {
                assert(front[i] == slots[i]);
                assert(earlier.contains(i));
                let k = choose|k: int| 0 <= k < earlier.len() && earlier[k] == i;
                assert(all[k] == i);
            } else {
                assert(all[all.len() - 1] == i);
            }
        }
    }
}

/// A tick keeps every job well formed.
pub proof fn lemma_tick_keeps_wf(slots: Seq<SlotModel>, now: Instant)
    requires
        all_wf(slots),
    ensures
        all_wf(tick_model(slots, now)),
{
    assert forall|i: int| 0 <= i < tick_model(slots, now).len() implies (#[trigger] tick_model(
        slots,
        now,
    )[i]).wf() by {
        assert(slots[i].wf());
        lemma_advance_keeps_window(slots[i]);
    }
}

/// A scheduler without jobs fires nothing and stays without jobs, at every
/// tick.
pub proof fn lemma_no_jobs_no_firing(now: Instant)
    ensures
        due_slots(Seq::<SlotModel>::empty(), now) == Seq::<int>::empty(),
        tick_model(Seq::<SlotModel>::empty(), now) == Seq::<SlotModel>::empty(),
{
}

/// Exactly once. Where every unit keeps count of its runs, a tick leaves the
/// unit of each due job with one run more and every other unit with the
/// count it had: no due unit is passed over or run twice, however far behind
/// its job is, and no other unit is run. `before` and `after` are the units
/// before and after the tick, `slots` the jobs before it and `report` what
/// the tick returned.
pub proof fn lemma_tick_runs_due_units_once<T: Task>(
    before: Seq<T>,
    after: Seq<T>,
    slots: Seq<SlotModel>,
    now: Instant,
    report: Seq<Firing>,
)
    requires
        before.len() == slots.len(),
        after.len() == slots.len(),
        fired(report) == due_slots(slots, now),
        forall|i: int| 0 <= i < slots.len() && !slots[i].due(now) ==> #[trigger] after[i] == before[i],
        forall|k: int|
            0 <= k < report.len() ==> before[(#[trigger] report[k]).slot as int].allows(
                report[k].outcome(),
                after[report[k].slot as int].run_count(),
            ),
        forall|i: int, outcome: Result<(), ExecutionError>, count_after: nat|
            0 <= i < before.len() && #[trigger] before[i].allows(outcome, count_after) ==> count_after
                == before[i].run_count() + 1,
    ensures
        forall|i: int|
            0 <= i < slots.len() ==> (#[trigger] after[i]).run_count() == before[i].run_count() + if slots[i].due(
                now,
            ) {
                1nat
            } else {
                0nat
            },
{
    lemma_due_slots_exact(slots, now);
    assert forall|i: int| 0 <= i < slots.len() implies (#[trigger] after[i]).run_count()
        == before[i].run_count() + if slots[i].due(now) {
        1nat
    } else {
        0nat
    } by {
        if slots[i].due(now) {
            assert(due_slots(slots, now).contains(i));
            let k = choose|k: int| 0 <= k < due_slots(slots, now).len() && due_slots(slots, now)[k] == i;
            assert(fired(report)[k] == i);
            assert(report[k].slot as int == i);
            assert(before[i].allows(report[k].outcome(), after[i].run_count()));
        } else {
            assert(after[i] == before[i]);
        }
    }
}

} // verus!
