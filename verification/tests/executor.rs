use fw::executor::{
    check_parallelism, Executor, ExecutorError, DEFAULT_PARALLELISM, MAX_PARALLELISM,
    MIN_PARALLELISM,
};
use fw::outcome::{summarize_sync, FailureReason, SyncOutcome, SyncStatus};

fn outcome(task: usize, status: SyncStatus) -> SyncOutcome {
    SyncOutcome { project: format!("project-{}", task), status, log: String::new() }
}

/// What the work gives for each task: task `failing` fails, the others
/// succeed in one way or another.
fn work(task: usize, failing: usize) -> SyncOutcome {
    let status = if task == failing {
        SyncStatus::Failed(FailureReason::NetworkError)
    } else if task % 3 == 0 {
        SyncStatus::Cloned
    } else if task % 3 == 1 {
        SyncStatus::Updated
    } else {
        SyncStatus::UpToDate
    };
    outcome(task, status)
}

/// Runs all tasks; of the tasks in flight the one at place `pick % in_flight`
/// completes next.
fn run(total: usize, parallelism: usize, failing: usize, pick: usize) -> Vec<(usize, SyncOutcome)> {
    let mut executor: Executor<SyncOutcome> = Executor::new(total, parallelism).unwrap();
    let mut in_flight: Vec<usize> = Vec::new();
    let mut round = 0;
    while !executor.is_done() {
        while let Some(task) = executor.dispatch() {
            in_flight.push(task);
        }
        assert!(executor.in_flight() <= parallelism);
        assert_eq!(executor.in_flight(), in_flight.len());
        assert!(!in_flight.is_empty());
        let task = in_flight.remove((pick + round) % in_flight.len());
        assert_eq!(executor.complete(task, work(task, failing)), Ok(()));
        round += 1;
    }
    executor.into_completions().into_iter().map(|c| (c.task, c.outcome)).collect()
}

fn by_task(mut completions: Vec<(usize, SyncOutcome)>) -> Vec<SyncOutcome> {
    completions.sort_by_key(|c| c.0);
    completions.into_iter().map(|c| c.1).collect()
}

#[test]
fn the_bounds_of_parallelism_are_1_and_128() {
    assert_eq!(MIN_PARALLELISM, 1);
    assert_eq!(MAX_PARALLELISM, 128);
    assert_eq!(DEFAULT_PARALLELISM, 8);
    assert_eq!(check_parallelism(0), Err(ExecutorError::InvalidParallelism));
    assert_eq!(check_parallelism(1), Ok(1));
    assert_eq!(check_parallelism(8), Ok(8));
    assert_eq!(check_parallelism(128), Ok(128));
    assert_eq!(check_parallelism(129), Err(ExecutorError::InvalidParallelism));
    assert_eq!(check_parallelism(usize::MAX), Err(ExecutorError::InvalidParallelism));
}

#[test]
fn parallelism_0_is_rejected_before_any_task_starts() {
    let r: Result<Executor<SyncOutcome>, ExecutorError> = Executor::new(5, 0);
    assert_eq!(r.unwrap_err(), ExecutorError::InvalidParallelism);
}

#[test]
fn parallelism_129_is_rejected_before_any_task_starts() {
    let r: Result<Executor<SyncOutcome>, ExecutorError> = Executor::new(5, 129);
    assert_eq!(r.unwrap_err(), ExecutorError::InvalidParallelism);
}

#[test]
fn parallelism_1_and_128_are_accepted() {
    assert!(Executor::<SyncOutcome>::new(5, 1).is_ok());
    assert!(Executor::<SyncOutcome>::new(5, 128).is_ok());
    assert!(Executor::<SyncOutcome>::new(0, 8).unwrap().is_done());
}

#[test]
fn tasks_start_in_the_order_of_submission_up_to_the_bound() {
    let mut executor: Executor<u8> = Executor::new(5, 2).unwrap();
    assert_eq!(executor.pending(), 5);
    assert_eq!(executor.dispatch(), Some(0));
    assert_eq!(executor.dispatch(), Some(1));
    assert_eq!(executor.dispatch(), None);
    assert_eq!(executor.in_flight(), 2);
    assert_eq!(executor.pending(), 3);
    assert_eq!(executor.complete(1, 11), Ok(()));
    assert_eq!(executor.in_flight(), 1);
    assert_eq!(executor.dispatch(), Some(2));
    assert_eq!(executor.dispatch(), None);
    assert_eq!(executor.complete(0, 10), Ok(()));
    assert_eq!(executor.complete(2, 12), Ok(()));
    assert_eq!(executor.dispatch(), Some(3));
    assert_eq!(executor.dispatch(), Some(4));
    assert_eq!(executor.dispatch(), None);
    assert!(!executor.is_done());
    assert_eq!(executor.complete(4, 14), Ok(()));
    assert_eq!(executor.complete(3, 13), Ok(()));
    assert!(executor.is_done());
    assert_eq!(executor.dispatch(), None);
    let order: Vec<(usize, u8)> =
        executor.completions().iter().map(|c| (c.task, c.outcome)).collect();
    assert_eq!(order, vec![(1, 11), (0, 10), (2, 12), (4, 14), (3, 13)]);
    assert_eq!(executor.into_outcomes(), vec![11, 10, 12, 14, 13]);
}

#[test]
fn a_task_that_is_not_running_cannot_complete() {
    let mut executor: Executor<u8> = Executor::new(3, 2).unwrap();
    assert_eq!(executor.complete(0, 1), Err(ExecutorError::NotRunning));
    assert_eq!(executor.dispatch(), Some(0));
    assert_eq!(executor.complete(1, 1), Err(ExecutorError::NotRunning));
    assert_eq!(executor.complete(7, 1), Err(ExecutorError::NotRunning));
    assert_eq!(executor.complete(0, 1), Ok(()));
    assert_eq!(executor.complete(0, 1), Err(ExecutorError::NotRunning));
    assert_eq!(executor.completions().len(), 1);
    assert_eq!(executor.in_flight(), 0);
}

#[test]
fn with_one_worker_the_tasks_run_one_after_the_other() {
    let mut executor: Executor<u8> = Executor::new(3, 1).unwrap();
    for task in 0..3 {
        assert_eq!(executor.dispatch(), Some(task));
        assert_eq!(executor.dispatch(), None);
        assert_eq!(executor.in_flight(), 1);
        assert_eq!(executor.complete(task, 0), Ok(()));
    }
    assert!(executor.is_done());
}

#[test]
fn a_run_without_a_number_asked_for_takes_what_the_machine_offers() {
    let mut executor: Executor<u8> = Executor::with_workers(300, 200);
    assert_eq!(executor.parallelism(), 200);
    let mut started = 0;
    while executor.dispatch().is_some() {
        started += 1;
    }
    assert_eq!(started, 200);
    assert_eq!(executor.in_flight(), 200);
    assert_eq!(executor.pending(), 100);
    assert_eq!(Executor::<u8>::with_workers(3, 0).parallelism(), 1);
    assert_eq!(Executor::<u8>::with_workers(3, 4).parallelism(), 4);
    assert_eq!(Executor::<u8>::new(3, 4).unwrap().parallelism(), 4);
}

#[test]
fn one_failing_project_leaves_the_others_alone() {
    let total = 7;
    let failing = 3;
    for parallelism in [1, 2, 3, 8, 128] {
        for pick in 0..4 {
            let completions = run(total, parallelism, failing, pick);
            assert_eq!(completions.len(), total);
            let outcomes = by_task(completions.clone());
            for task in 0..total {
                assert_eq!(outcomes[task], work(task, failing));
            }
            let in_order: Vec<SyncOutcome> = completions.into_iter().map(|c| c.1).collect();
            let summary = summarize_sync(&in_order);
            assert_eq!(summary.failed(), 1);
            assert_eq!(summary.network_error, 1);
            assert_eq!(summary.cloned + summary.updated + summary.up_to_date, total - 1);
            assert_eq!(summary.exit_status(), 1);
        }
    }
}

#[test]
fn one_worker_gives_the_same_outcomes_as_eight() {
    let total = 11;
    let serial = by_task(run(total, 1, 4, 0));
    for pick in 0..5 {
        assert_eq!(by_task(run(total, 8, 4, pick)), serial);
    }
    let order: Vec<usize> = run(total, 1, 4, 0).into_iter().map(|c| c.0).collect();
    assert_eq!(order, (0..total).collect::<Vec<usize>>());
}

#[test]
fn a_failure_does_not_keep_the_next_task_from_starting() {
    let mut executor: Executor<SyncOutcome> = Executor::new(3, 1).unwrap();
    assert_eq!(executor.dispatch(), Some(0));
    assert_eq!(executor.complete(0, work(0, 0)), Ok(()));
    assert_eq!(executor.dispatch(), Some(1));
    assert_eq!(executor.complete(1, work(1, 0)), Ok(()));
    assert_eq!(executor.dispatch(), Some(2));
    assert_eq!(executor.complete(2, work(2, 0)), Ok(()));
    assert!(executor.is_done());
}

#[test]
fn cancelling_gives_up_what_has_not_started_and_awaits_the_rest() {
    let mut executor: Executor<u8> = Executor::new(6, 2).unwrap();
    assert_eq!(executor.dispatch(), Some(0));
    assert_eq!(executor.dispatch(), Some(1));
    assert_eq!(executor.complete(0, 1), Ok(()));
    assert_eq!(executor.cancel_pending(), 4);
    assert_eq!(executor.pending(), 0);
    assert_eq!(executor.dispatch(), None);
    assert!(!executor.is_done());
    assert_eq!(executor.complete(1, 2), Ok(()));
    assert!(executor.is_done());
    assert_eq!(executor.cancel_pending(), 0);
    assert_eq!(executor.into_outcomes(), vec![1, 2]);
}
