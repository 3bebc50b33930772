use concurrency_foundations::fanout::fan_out;
use concurrency_foundations::fanout::join_all;
use concurrency_foundations::fanout::FanOutReader;
use concurrency_foundations::handoff::OwnershipHandoff;
use concurrency_foundations::scoped::with_scope;
use concurrency_foundations::scoped::with_scope_readers;
use concurrency_foundations::scoped::Scope;
use concurrency_foundations::summarize_joins;
use concurrency_foundations::WorkerFault;

#[test]
fn handoff_returns_derived_result() {
    let result = OwnershipHandoff::handoff(0i64, |c| c + 42);
    assert_eq!(result, 42);
}

#[test]
fn handoff_moves_ownership_into_the_worker() {
    let owned = String::from("payload");
    let length = OwnershipHandoff::handoff(owned, |s| s.len());
    // `owned` is moved: any use of the binding after this point is a
    // compile-time error, which is the rejection the transfer promises.
    assert_eq!(length, 7);
}

#[test]
fn fan_out_readers_observe_distinct_assigned_values() {
    let reader = FanOutReader::new(vec![1.0f64, 2.0, 3.0]);
    let readers = reader.spawn_readers(3);
    assert_eq!(readers.len(), 3);
    for (k, task) in readers.iter().enumerate() {
        assert_eq!(task.index, k);
    }
    let observed = join_all(&readers);
    assert_eq!(observed, vec![1.0, 2.0, 3.0]);
}

#[test]
fn fan_out_leaves_the_sequence_unchanged() {
    let reader = FanOutReader::new(vec![10u64, 20, 30, 40]);
    let observed = fan_out(&reader, 2);
    assert_eq!(observed, vec![10, 20]);
    assert_eq!(reader.len(), 4);
    assert_eq!(*reader.read(0), 10);
    assert_eq!(*reader.read(1), 20);
    assert_eq!(*reader.read(2), 30);
    assert_eq!(*reader.read(3), 40);
}

#[test]
fn readers_invoke_read_fn_once_each_with_distinct_index() {
    let reader = FanOutReader::new(vec![1u64, 2, 3]);
    let tasks = reader.spawn_readers(3);
    let read_fn = |h: &FanOutReader<u64>, i: usize| *h.read(i) * 10;
    let mut seen = Vec::new();
    for task in &tasks {
        seen.push(task.run_with(&read_fn));
    }
    assert_eq!(seen, vec![10, 20, 30]);
}

#[test]
fn cloned_handles_share_the_same_values() {
    let reader = FanOutReader::new(vec![5u64, 6]);
    let other = reader.clone_handle();
    assert_eq!(*other.read(0), 5);
    assert_eq!(*other.read(1), 6);
    assert_eq!(other.len(), reader.len());
}

#[test]
fn scope_completes_every_spawned_worker() {
    let buffer = vec![2u64, 4, 6];
    let workers = vec![0usize, 2, 1, 2];
    let (back, observed, report) = with_scope_readers(buffer, &workers);
    assert_eq!(report.spawned, 4);
    assert_eq!(report.completed, 4);
    assert_eq!(back, vec![2, 4, 6]);
    assert_eq!(observed, vec![2, 6, 4, 6]);
}

#[test]
fn empty_scope_reports_zero_workers() {
    let (back, observed, report) = with_scope_readers(vec![1u64], &Vec::new());
    assert_eq!(report.spawned, 0);
    assert_eq!(report.completed, 0);
    assert_eq!(back, vec![1]);
    assert!(observed.is_empty());
}

#[test]
fn with_scope_body_spawns_through_the_scope() {
    let buffer = vec![5u64, 6];
    let (back, observed, report) = with_scope(buffer, |mut s: Scope<u64>| {
        s.spawn(1);
        s.spawn(0);
        s.spawn(1);
        s
    });
    assert_eq!(report.spawned, 3);
    assert_eq!(report.completed, 3);
    assert_eq!(back, vec![5, 6]);
    assert_eq!(observed, vec![6, 5, 6]);
}

#[test]
fn scope_tracks_spawns_until_close() {
    let mut scope = Scope::new(vec![7i64, 8]);
    scope.spawn(1);
    scope.spawn(0);
    let (back, observed, report) = scope.close();
    assert_eq!(report.spawned, 2);
    assert_eq!(report.completed, 2);
    assert_eq!(back, vec![7, 8]);
    assert_eq!(observed, vec![8, 7]);
}

#[test]
fn summarize_joins_accepts_all_normal_returns() {
    assert_eq!(summarize_joins(&vec![true, true, true]), Ok(3));
    assert_eq!(summarize_joins(&vec![]), Ok(0));
}

#[test]
fn summarize_joins_aggregates_faults_after_joining_all() {
    assert_eq!(
        summarize_joins(&vec![true, false, true, false]),
        Err(WorkerFault { faulted: 2 })
    );
    assert_eq!(summarize_joins(&vec![false]), Err(WorkerFault { faulted: 1 }));
}
