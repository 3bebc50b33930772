use concurrency_foundations::counter::SharedCounter;
use concurrency_foundations::schedule::constant_script;
use concurrency_foundations::schedule::contend;
use concurrency_foundations::schedule::merge_scripts;
use concurrency_foundations::schedule::run_deltas;

#[test]
fn balanced_contention_returns_to_initial() {
    let counter = SharedCounter::new(0);
    for _ in 0..1_000_000 {
        counter.apply(1);
    }
    for _ in 0..1_000_000 {
        counter.apply(-1);
    }
    assert_eq!(counter.snapshot().0, 0);
}

#[test]
fn interleaved_contention_returns_to_initial() {
    let counter = SharedCounter::new(0);
    for _ in 0..1_000_000 {
        counter.apply(1);
        counter.apply(-1);
    }
    assert_eq!(counter.snapshot().0, 0);
}

#[test]
fn apply_reports_exact_update() {
    let counter = SharedCounter::new(10);
    let (before, after) = counter.apply(5);
    assert_eq!(before, 10);
    assert_eq!(after, 15);
    let (before, after) = counter.apply(-20);
    assert_eq!(before, 15);
    assert_eq!(after, -5);
    assert_eq!(counter.snapshot().0, -5);
}

#[test]
fn apply_refuses_unrepresentable_update() {
    let counter = SharedCounter::new(i64::MAX);
    let (before, after) = counter.apply(1);
    assert_eq!(before, i64::MAX);
    assert_eq!(after, i64::MAX);
    assert_eq!(counter.snapshot().0, i64::MAX);
    let (before, after) = counter.apply(-1);
    assert_eq!(before, i64::MAX);
    assert_eq!(after, i64::MAX - 1);
}

#[test]
fn contend_is_exact_for_every_tried_schedule() {
    let schedules: Vec<Vec<bool>> = vec![
        vec![true, true, false, false],
        vec![true, false, true, false],
        vec![false, true, false, true],
        vec![false, false, true, true],
        vec![true, false, false, true],
        vec![false, true, true, false],
    ];
    for schedule in &schedules {
        assert_eq!(contend(0, 2, schedule), Some(0));
        assert_eq!(contend(17, 2, schedule), Some(17));
    }
}

#[test]
fn contend_large_alternating_schedule() {
    let mut schedule = Vec::new();
    for k in 0..2_000_000usize {
        schedule.push(k % 2 == 0);
    }
    assert_eq!(contend(5, 1_000_000, &schedule), Some(5));
}

#[test]
fn contend_rejects_misfitting_schedules() {
    assert_eq!(contend(0, 2, &vec![true, true, false]), None);
    assert_eq!(contend(0, 2, &vec![true, true, true, false]), None);
    assert_eq!(contend(0, 2, &vec![false, false, false, true]), None);
    assert_eq!(contend(0, 0, &vec![true]), None);
    assert_eq!(contend(9, 0, &vec![]), Some(9));
}

#[test]
fn run_deltas_sums_exactly() {
    assert_eq!(run_deltas(10, &vec![1, -2, 3]), Some(12));
    assert_eq!(run_deltas(0, &vec![]), Some(0));
    assert_eq!(run_deltas(i64::MAX, &vec![1]), None);
    assert_eq!(run_deltas(i64::MAX, &vec![-1, 1, 1]), None);
    assert_eq!(run_deltas(i64::MIN, &vec![1, -1]), Some(i64::MIN));
}

#[test]
fn merge_scripts_serializes_by_schedule() {
    let merged = merge_scripts(&vec![1, 2], &vec![-3], &vec![true, false, true]);
    assert_eq!(merged, Some(vec![1, -3, 2]));
    assert_eq!(
        merge_scripts(&vec![1, 2], &vec![-3], &vec![true, true, true]),
        None
    );
    assert_eq!(merge_scripts(&vec![1, 2], &vec![-3], &vec![true, false]), None);
    assert_eq!(merge_scripts(&vec![], &vec![], &vec![]), Some(vec![]));
}

#[test]
fn constant_script_repeats_the_delta() {
    assert_eq!(constant_script(4, -1), vec![-1, -1, -1, -1]);
    assert_eq!(constant_script(0, 7), Vec::<i64>::new());
}

#[test]
fn data_race_attempt_is_inert() {
    concurrency_foundations::counter::data_race_attempt();
}
