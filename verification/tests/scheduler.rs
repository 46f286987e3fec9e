use iknow::utils::lookahead::POLL_MAX_SIZE;
use iknow::utils::task::POLL_INTERVAL;
use iknow::utils::{
    Counted, Cron, ExecutionError, Firing, Instant, Manager, Rule, ScheduleError, Task, Zone,
};

/// 2023-11-14 22:13:20 UTC.
const T: i64 = 1_700_000_000;

/// 2024-01-01 00:00:00 UTC.
const NEW_YEAR: i64 = 1_704_067_200;

struct Counter {
    runs: u32,
    fail: bool,
}

impl Counter {
    fn new() -> Counter {
        Counter { runs: 0, fail: false }
    }

    fn failing() -> Counter {
        Counter { runs: 0, fail: true }
    }
}

impl Task for Counter {
    fn run(&mut self) -> Result<(), ExecutionError> {
        self.runs += 1;
        if self.fail {
            Err(ExecutionError { cause: format!("run {} failed", self.runs) })
        } else {
            Ok(())
        }
    }
}

fn at(secs: i64, nanos: u32) -> Instant {
    Instant::new(secs, nanos)
}

fn runs(manager: &Manager<Counter>, slot: usize) -> u32 {
    manager.slot(slot).unwrap().task().runs
}

fn pending(manager: &Manager<Counter>, slot: usize) -> Vec<Instant> {
    manager.slot(slot).unwrap().upcomings().clone()
}

#[test]
fn every_second_fires_three_times_in_three_and_a_half_seconds() {
    let mut manager = Manager::new();
    manager.register("* * * * * *", "tick", Counter::new(), Zone::utc(), at(T, 0)).unwrap();
    assert_eq!(pending(&manager, 0), vec![at(T + 1, 0), at(T + 2, 0), at(T + 3, 0), at(T + 4, 0), at(T + 5, 0)]);
    let half = 500_000_000;
    assert!(manager.tick(at(T, half)).is_empty());
    for step in 1..=3 {
        let report = manager.tick(at(T + step, half));
        assert_eq!(report.len(), 1);
        assert_eq!(report[0].slot, 0);
        assert!(report[0].failure.is_none());
        assert!(!report[0].exhausted);
    }
    assert_eq!(runs(&manager, 0), 3);
    assert_eq!(pending(&manager, 0), vec![at(T + 4, 0), at(T + 5, 0), at(T + 6, 0), at(T + 7, 0), at(T + 8, 0)]);
}

#[test]
fn identical_rules_fire_in_registration_order() {
    let mut manager = Manager::new();
    manager.register("*/5 * * * * ?", "first", Counter::new(), Zone::utc(), at(T, 0)).unwrap();
    manager.register("*/5 * * * * ?", "second", Counter::new(), Zone::utc(), at(T, 0)).unwrap();
    assert_eq!(pending(&manager, 0), pending(&manager, 1));
    assert_eq!(pending(&manager, 0)[0], at(T + 5, 0));
    assert!(manager.tick(at(T + 5, 0)).is_empty());
    let report = manager.tick(at(T + 5, 1));
    assert_eq!(report.iter().map(|firing| firing.slot).collect::<Vec<usize>>(), vec![0, 1]);
    assert_eq!(runs(&manager, 0), 1);
    assert_eq!(runs(&manager, 1), 1);
}

#[test]
fn too_many_fields_are_refused_and_prior_jobs_stay() {
    let mut manager = Manager::new();
    manager.register("0 0 12,17 * * ?", "csgo", Counter::new(), Zone::utc(), at(T, 0)).unwrap();
    let before = pending(&manager, 0);
    let refused = manager.register("* * * * * * * *", "bad", Counter::new(), Zone::utc(), at(T, 0));
    match refused {
        Err(ScheduleError::InvalidScheduleExpression { expression, .. }) => {
            assert_eq!(expression, "* * * * * * * *");
        }
        other => panic!("expected an invalid expression, got {:?}", other),
    }
    assert_eq!(manager.len(), 1);
    assert_eq!(pending(&manager, 0), before);
    assert_eq!(
        manager.describe(),
        vec![("csgo".to_string(), "0 0 12,17 * * ?".to_string())]
    );
}

#[test]
fn a_failing_job_does_not_stop_the_next_one() {
    let mut manager = Manager::new();
    manager.register("* * * * * *", "broken", Counter::failing(), Zone::utc(), at(T, 0)).unwrap();
    manager.register("* * * * * *", "sound", Counter::new(), Zone::utc(), at(T, 0)).unwrap();
    let report = manager.tick(at(T + 2, 0));
    assert_eq!(report.len(), 2);
    assert_eq!(report[0].slot, 0);
    assert_eq!(report[0].failure.as_ref().unwrap().cause, "run 1 failed");
    assert_eq!(report[1].slot, 1);
    assert!(report[1].failure.is_none());
    assert_eq!(runs(&manager, 1), 1);
    let report = manager.tick(at(T + 3, 0));
    assert_eq!(report.len(), 2);
    assert_eq!(runs(&manager, 0), 2);
    assert_eq!(runs(&manager, 1), 2);
}

#[test]
fn no_jobs_nothing_fires() {
    let mut manager: Manager<Counter> = Manager::new();
    for step in 0..100 {
        assert!(manager.tick(at(T + step, 0)).is_empty());
    }
    assert_eq!(manager.len(), 0);
    assert!(manager.describe().is_empty());
    assert!(manager.slot(0).is_none());
    assert_eq!(POLL_MAX_SIZE, 5);
    let mut other: Manager<Counter> = Manager::default();
    assert_eq!(other.len(), 0);
    assert!(other.tick(at(i64::MAX, u32::MAX)).is_empty());
}

#[test]
fn a_job_far_behind_fires_once_per_tick() {
    let mut manager = Manager::new();
    manager.register("* * * * * *", "late", Counter::new(), Zone::utc(), at(T, 0)).unwrap();
    let much_later = at(T + 1_000_000, 0);
    for round in 1..=7 {
        let report = manager.tick(much_later);
        assert_eq!(report.len(), 1);
        assert_eq!(report[0].slot, 0);
        assert_eq!(runs(&manager, 0), round);
        let head = T + 1 + i64::from(round);
        assert_eq!(
            pending(&manager, 0),
            vec![at(head, 0), at(head + 1, 0), at(head + 2, 0), at(head + 3, 0), at(head + 4, 0)]
        );
    }
}

#[test]
fn a_job_is_not_due_at_its_very_instant() {
    let mut manager = Manager::new();
    manager.register("0 0 12,17 * * ?", "csgo", Counter::new(), Zone::utc(), at(T, 0)).unwrap();
    let slot = manager.slot(0).unwrap();
    assert!(!slot.peek_due(at(T, 0)));
    assert!(!slot.peek_due(at(1_700_049_600, 0)));
    assert!(slot.peek_due(at(1_700_049_600, 1)));
    assert!(manager.tick(at(1_700_049_600, 0)).is_empty());
    assert_eq!(runs(&manager, 0), 0);
    assert_eq!(manager.tick(at(1_700_049_600, 1)).len(), 1);
    assert_eq!(runs(&manager, 0), 1);
    assert!(manager.tick(at(1_700_049_600, 1)).is_empty());
    assert_eq!(pending(&manager, 0)[0], at(1_700_067_600, 0));
    assert_eq!(pending(&manager, 0).len(), POLL_MAX_SIZE);
}

#[test]
fn only_due_jobs_fire_and_the_others_are_left_alone() {
    let mut manager = Manager::new();
    manager.register("0 0 12 * * ?", "noon", Counter::new(), Zone::utc(), at(T, 0)).unwrap();
    manager.register("* * * * * *", "second", Counter::new(), Zone::utc(), at(T, 0)).unwrap();
    manager.register("0 0 17 * * ?", "five", Counter::failing(), Zone::utc(), at(T, 0)).unwrap();
    let noon = pending(&manager, 0);
    let five = pending(&manager, 2);
    let report = manager.tick(at(T + 1, 500));
    assert_eq!(report.len(), 1);
    assert_eq!(report[0].slot, 1);
    assert_eq!(pending(&manager, 0), noon);
    assert_eq!(pending(&manager, 2), five);
    assert_eq!(runs(&manager, 0), 0);
    assert_eq!(runs(&manager, 1), 1);
    assert_eq!(runs(&manager, 2), 0);
    let report = manager.tick(at(1_700_067_600, 1));
    assert_eq!(report.iter().map(|firing| firing.slot).collect::<Vec<usize>>(), vec![0, 1, 2]);
    assert!(report[0].failure.is_none());
    assert!(report[1].failure.is_none());
    assert_eq!(report[2].failure.as_ref().unwrap().cause, "run 1 failed");
}

#[test]
fn a_rule_that_runs_dry_is_reported_once_and_the_job_goes_quiet() {
    let mut manager = Manager::new();
    manager.register("0 0 0 1 2-7 * 2024", "half year", Counter::new(), Zone::utc(), at(NEW_YEAR, 0)).unwrap();
    assert_eq!(pending(&manager, 0).len(), 5);
    assert!(!manager.slot(0).unwrap().is_exhausted());
    let after_2024 = at(1_740_000_000, 0);
    let report = manager.tick(after_2024);
    assert_eq!(report.len(), 1);
    assert!(!report[0].exhausted);
    assert_eq!(
        pending(&manager, 0),
        vec![
            at(1_709_251_200, 0),
            at(1_711_929_600, 0),
            at(1_714_521_600, 0),
            at(1_717_200_000, 0),
            at(1_719_792_000, 0),
        ]
    );
    let report = manager.tick(after_2024);
    assert_eq!(report.len(), 1);
    assert!(report[0].exhausted);
    assert!(manager.slot(0).unwrap().is_exhausted());
    assert_eq!(pending(&manager, 0).len(), 4);
    for left in (0..4).rev() {
        let report = manager.tick(after_2024);
        assert_eq!(report.len(), 1);
        assert!(!report[0].exhausted);
        assert_eq!(pending(&manager, 0).len(), left);
    }
    assert_eq!(runs(&manager, 0), 6);
    for _ in 0..10 {
        assert!(manager.tick(after_2024).is_empty());
    }
    assert_eq!(runs(&manager, 0), 6);
    assert_eq!(manager.len(), 1);
}

#[test]
fn a_rule_with_few_occurrences_starts_short() {
    let mut manager = Manager::new();
    manager.register("0 0 0 1 6 * 2024", "june", Counter::new(), Zone::utc(), at(NEW_YEAR, 0)).unwrap();
    assert_eq!(pending(&manager, 0), vec![at(1_717_200_000, 0)]);
    assert!(manager.slot(0).unwrap().is_exhausted());
    assert!(manager.tick(at(1_717_200_000, 0)).is_empty());
    let report = manager.tick(at(1_717_200_001, 0));
    assert_eq!(report.len(), 1);
    assert!(!report[0].exhausted);
    assert!(pending(&manager, 0).is_empty());
    assert!(manager.tick(at(1_800_000_000, 0)).is_empty());
    assert_eq!(runs(&manager, 0), 1);
}

#[test]
fn a_rule_without_a_future_is_refused() {
    let mut manager = Manager::new();
    manager.register("* * * * * *", "first", Counter::new(), Zone::utc(), at(T, 0)).unwrap();
    for expression in ["0 0 0 1 1 * 2020", "0 0 0 31 2 *"] {
        match manager.register(expression, "never", Counter::new(), Zone::utc(), at(T, 0)) {
            Err(ScheduleError::ScheduleExhausted { expression: refused }) => {
                assert_eq!(refused, expression)
            }
            other => panic!("expected an exhausted schedule, got {:?}", other),
        }
    }
    assert_eq!(manager.len(), 1);
    assert_eq!(manager.describe(), vec![("first".to_string(), "* * * * * *".to_string())]);
    let late = at(4_133_980_799, 0);
    assert!(matches!(
        manager.register("* * * * * *", "late", Counter::new(), Zone::utc(), late),
        Err(ScheduleError::ScheduleExhausted { .. })
    ));
    let beyond = at(i64::MAX, 0);
    assert!(matches!(
        manager.register("* * * * * *", "beyond", Counter::new(), Zone::utc(), beyond),
        Err(ScheduleError::ScheduleExhausted { .. })
    ));
    assert_eq!(manager.len(), 1);
}

#[test]
fn jobs_are_described_in_registration_order() {
    let mut manager = Manager::new();
    manager.register("0 0 12,17 * * ?", "csgo", Counter::new(), Zone::utc(), at(T, 0)).unwrap();
    manager.register("*/5 * * * * ?", "", Counter::new(), Zone::east(3600).unwrap(), at(T, 7)).unwrap();
    manager.register("@daily", "daily", Counter::new(), Zone::utc(), at(T, 0)).unwrap();
    assert_eq!(
        manager.describe(),
        vec![
            ("csgo".to_string(), "0 0 12,17 * * ?".to_string()),
            ("".to_string(), "*/5 * * * * ?".to_string()),
            ("daily".to_string(), "@daily".to_string()),
        ]
    );
    assert_eq!(manager.len(), 3);
    let second = manager.slot(1).unwrap();
    assert_eq!(second.task_name(), "");
    assert_eq!(second.schedule_description(), "*/5 * * * * ?");
    assert_eq!(second.rule().zone().offset(), 3600);
    assert_eq!(second.upcomings()[0], at(T + 5, 0));
    assert!(manager.slot(3).is_none());
    let before = manager.describe();
    manager.tick(at(T + 100, 0));
    assert_eq!(manager.describe(), before);
}

#[test]
fn the_zone_moves_the_fire_instants() {
    let mut manager = Manager::new();
    let east = Zone::east(8 * 3600).unwrap();
    manager.register("0 0 12,17 * * ?", "utc", Counter::new(), Zone::utc(), at(T, 0)).unwrap();
    manager.register("0 0 12,17 * * ?", "east", Counter::new(), east, at(T, 0)).unwrap();
    assert_eq!(pending(&manager, 0)[0], at(1_700_049_600, 0));
    assert_eq!(pending(&manager, 1)[0], at(1_700_020_800, 0));
    let report = manager.tick(at(1_700_020_801, 0));
    assert_eq!(report.len(), 1);
    assert_eq!(report[0].slot, 1);
}

#[test]
fn adding_chains_and_reads_the_clock() {
    let manager = Manager::new()
        .add("* * * * * *", "first", Counter::new())
        .unwrap()
        .add("*/5 * * * * ?", "second", Counter::new())
        .unwrap();
    assert_eq!(manager.len(), 2);
    assert_eq!(
        manager.describe(),
        vec![
            ("first".to_string(), "* * * * * *".to_string()),
            ("second".to_string(), "*/5 * * * * ?".to_string()),
        ]
    );
    let first = pending(&manager, 0);
    assert_eq!(first.len(), POLL_MAX_SIZE);
    assert!(first[0].secs > T);
    for pair in first.windows(2) {
        assert_eq!(pair[1], at(pair[0].secs + 1, 0));
    }
    for instant in pending(&manager, 1) {
        assert_eq!(instant.secs % 5, 0);
        assert_eq!(instant.nanos, 0);
    }
    match manager.add("* * * * * * * *", "bad", Counter::new()) {
        Err(ScheduleError::InvalidScheduleExpression { expression, .. }) => {
            assert_eq!(expression, "* * * * * * * *");
        }
        _ => panic!("expected an invalid expression"),
    }
    assert!(matches!(
        Manager::new().add("0 0 0 31 2 *", "never", Counter::new()),
        Err(ScheduleError::ScheduleExhausted { .. })
    ));
}

#[test]
fn a_job_of_its_own_advances_and_runs() {
    let rule = Rule::parse("*/5 * * * * ?", Zone::utc()).unwrap();
    let mut job = Cron::starting_at(Counter::failing(), rule, "alone".to_string(), at(T + 1, 0)).unwrap();
    assert_eq!(job.task_name(), "alone");
    assert_eq!(job.upcomings()[0], at(T + 5, 0));
    assert!(job.peek_due(at(T + 6, 0)));
    assert!(!job.advance());
    assert_eq!(job.upcomings()[0], at(T + 10, 0));
    assert_eq!(job.upcomings()[4], at(T + 30, 0));
    assert_eq!(job.task().runs, 0);
    assert_eq!(job.run().err().unwrap().cause, "run 1 failed");
    assert_eq!(job.task().runs, 1);
    assert_eq!(job.upcomings()[0], at(T + 10, 0));

    let rule = Rule::parse("* * * * * *", Zone::utc()).unwrap();
    let job = Cron::new(Counter::new(), rule, "now".to_string()).unwrap();
    assert_eq!(job.upcomings().len(), POLL_MAX_SIZE);
    assert!(job.upcomings()[0].secs > T);
    let never = Rule::parse("0 0 0 31 2 *", Zone::utc()).unwrap();
    assert!(matches!(
        Cron::new(Counter::new(), never, "never".to_string()),
        Err(ScheduleError::ScheduleExhausted { .. })
    ));
}

#[test]
fn a_firing_records_what_the_unit_returned() {
    let fine = Firing::record(3, false, Ok(()));
    assert_eq!(fine.slot, 3);
    assert!(!fine.exhausted);
    assert!(fine.failure.is_none());
    let failed = Firing::record(0, true, Err(ExecutionError { cause: "no network".to_string() }));
    assert_eq!(failed.slot, 0);
    assert!(failed.exhausted);
    assert_eq!(failed.failure.unwrap().cause, "no network");
    assert_eq!(POLL_INTERVAL, 1);
}

#[test]
fn the_buffer_stays_full_and_sorted_however_often_a_job_fires() {
    for expression in ["* * * * * *", "*/7 * * * * ?", "0 0 12,17 * * ?", "0 30 9 1,15 * ?", "@hourly"] {
        let rule = Rule::parse(expression, Zone::east(3600).unwrap()).unwrap();
        let mut job = Cron::starting_at(Counter::new(), rule, "steady".to_string(), at(T, 123)).unwrap();
        let mut last_head = at(T, 123);
        for _ in 0..200 {
            let pending = job.upcomings().clone();
            assert_eq!(pending.len(), POLL_MAX_SIZE);
            assert!(last_head.is_before(&pending[0]));
            for pair in pending.windows(2) {
                assert!(pair[0].is_before(&pair[1]));
                assert_eq!(job.rule().next_after(pair[0]), Some(pair[1]));
            }
            last_head = pending[0];
            assert!(!job.advance());
            assert!(!job.is_exhausted());
            assert_eq!(&job.upcomings()[..4], &pending[1..]);
        }
        assert_eq!(job.task().runs, 0);
    }
}

struct Silent;

impl Task for Silent {
    fn run(&mut self) -> Result<(), ExecutionError> {
        Ok(())
    }
}

#[test]
fn units_of_different_kinds_share_a_scheduler_behind_boxes() {
    let mut manager: Manager<Box<dyn Task>> = Manager::new();
    manager.register("* * * * * *", "silent", Box::new(Silent), Zone::utc(), at(T, 0)).unwrap();
    manager.register("* * * * * *", "broken", Box::new(Counter::failing()), Zone::utc(), at(T, 0)).unwrap();
    manager.register("* * * * * *", "counting", Box::new(Counter::new()), Zone::utc(), at(T, 0)).unwrap();
    let report = manager.tick(at(T + 1, 1));
    assert_eq!(report.iter().map(|firing| firing.slot).collect::<Vec<usize>>(), vec![0, 1, 2]);
    assert!(report[0].failure.is_none());
    assert_eq!(report[1].failure.as_ref().unwrap().cause, "run 1 failed");
    assert!(report[2].failure.is_none());
    let report = manager.tick(at(T + 2, 1));
    assert_eq!(report[1].failure.as_ref().unwrap().cause, "run 2 failed");
}

#[test]
fn a_boxed_unit_runs_what_is_in_the_box() {
    let mut failing = Box::new(Counter::failing());
    assert_eq!(Task::run(&mut failing).err().unwrap().cause, "run 1 failed");
    assert_eq!(Task::run(&mut failing).err().unwrap().cause, "run 2 failed");
    assert_eq!(failing.runs, 2);
    let mut sound = Box::new(Counter::new());
    assert!(Task::run(&mut sound).is_ok());
    assert_eq!(sound.runs, 1);
    let mut hidden: Box<dyn Task> = Box::new(Counter::failing());
    assert_eq!(hidden.run().err().unwrap().cause, "run 1 failed");
}

/// 2023-11-15 12:00:00 UTC.
const NOON: i64 = 1_700_049_600;

#[test]
fn a_counted_unit_counts_every_run() {
    let mut counted = Counted::new(Counter::failing());
    assert_eq!(counted.runs(), 0);
    assert_eq!(counted.run().err().unwrap().cause, "run 1 failed");
    assert_eq!(counted.run().err().unwrap().cause, "run 2 failed");
    assert_eq!(counted.runs(), 2);
    assert_eq!(counted.unit().runs, 2);
    let mut sound = Counted::new(Silent);
    for _ in 0..10 {
        assert!(sound.run().is_ok());
    }
    assert_eq!(sound.runs(), 10);
}

#[test]
fn a_job_behind_by_several_instants_runs_once_in_each_tick() {
    let mut manager = Manager::new();
    manager
        .register("*/10 * * * * *", "j", Counted::new(Silent), Zone::utc(), at(NOON + 5, 0))
        .unwrap();
    let pending = |manager: &Manager<Counted<Silent>>| manager.slot(0).unwrap().upcomings().clone();
    let tens = |from: i64| (0..5).map(|step| at(NOON + from + 10 * step, 0)).collect::<Vec<Instant>>();
    assert_eq!(pending(&manager), tens(10));
    assert_eq!(manager.tick(at(NOON + 45, 0)).len(), 1);
    assert_eq!(manager.slot(0).unwrap().task().runs(), 1);
    assert_eq!(pending(&manager), tens(20));
    assert_eq!(manager.tick(at(NOON + 46, 0)).len(), 1);
    assert_eq!(manager.slot(0).unwrap().task().runs(), 2);
    assert_eq!(pending(&manager), tens(30));
}

#[test]
fn both_of_two_jobs_with_the_same_rule_run_once_in_one_tick() {
    let mut manager = Manager::new();
    manager.register("*/5 * * * * ?", "a", Counted::new(Counter::failing()), Zone::utc(), at(T, 0)).unwrap();
    manager.register("*/5 * * * * ?", "b", Counted::new(Counter::new()), Zone::utc(), at(T, 0)).unwrap();
    manager.register("0 0 12 * * ?", "idle", Counted::new(Counter::new()), Zone::utc(), at(T, 0)).unwrap();
    let report = manager.tick(at(T + 100, 0));
    assert_eq!(report.iter().map(|firing| firing.slot).collect::<Vec<usize>>(), vec![0, 1]);
    assert_eq!(report[0].failure.as_ref().unwrap().cause, "run 1 failed");
    assert!(report[1].failure.is_none());
    let runs = |slot: usize| manager.slot(slot).unwrap().task().runs();
    assert_eq!(runs(0), 1);
    assert_eq!(runs(1), 1);
    assert_eq!(runs(2), 0);
    assert_eq!(manager.slot(0).unwrap().task().unit().runs, 1);
    assert_eq!(manager.slot(0).unwrap().upcomings()[0], at(T + 10, 0));
    assert_eq!(manager.slot(1).unwrap().upcomings()[0], at(T + 10, 0));
}

#[test]
fn a_reference_that_cannot_be_asked_about_is_refused_as_exhausted() {
    let mut manager = Manager::new();
    manager.register("* * * * * *", "first", Counter::new(), Zone::utc(), at(T, 0)).unwrap();
    for reference in [at(T, 1_000_000_000), at(T, u32::MAX), at(8_000_000_000_001, 0), at(i64::MIN, 0)] {
        match manager.register("* * * * * *", "odd", Counter::new(), Zone::utc(), reference) {
            Err(ScheduleError::ScheduleExhausted { expression }) => assert_eq!(expression, "* * * * * *"),
            other => panic!("expected an exhausted schedule, got {:?}", other),
        }
        let rule = Rule::parse("* * * * * *", Zone::utc()).unwrap();
        assert!(Cron::starting_at(Counter::new(), rule, "odd".to_string(), reference).is_err());
    }
    assert!(matches!(
        manager.register("bad", "odd", Counter::new(), Zone::utc(), at(T, u32::MAX)),
        Err(ScheduleError::InvalidScheduleExpression { .. })
    ));
    assert_eq!(manager.len(), 1);
}
