use fw::outcome::{summarize_sync, FailureReason, SyncOutcome, SyncStatus};
use fw::run::run_serial;

#[test]
fn a_serial_run_reports_every_task_in_order() {
    assert_eq!(run_serial(5, |task| task * task), vec![0, 1, 4, 9, 16]);
    assert_eq!(run_serial(0, |task| task), Vec::<usize>::new());
}

#[test]
fn a_failing_task_does_not_stop_a_serial_run() {
    let outcomes = run_serial(4, |task| SyncOutcome {
        project: format!("project-{}", task),
        status: if task == 1 {
            SyncStatus::Failed(FailureReason::NetworkError)
        } else {
            SyncStatus::Cloned
        },
        log: String::new(),
    });
    assert_eq!(outcomes.len(), 4);
    assert_eq!(outcomes[0].status, SyncStatus::Cloned);
    assert_eq!(outcomes[1].status, SyncStatus::Failed(FailureReason::NetworkError));
    assert_eq!(outcomes[2].status, SyncStatus::Cloned);
    assert_eq!(outcomes[3].status, SyncStatus::Cloned);
    let summary = summarize_sync(&outcomes);
    assert_eq!(summary.failed(), 1);
    assert_eq!(summary.cloned, 3);
    assert_eq!(summary.exit_status(), 1);
}
