use fw::model::{Project, Remote};
use fw::outcome::{FailureReason, SyncStatus};
use fw::sync::{
    MergeAnalysis, PathState, SyncAction, SyncEvent, SyncOptions, SyncState, SyncTask,
};

fn options(fast_forward_only: bool, only_new: bool) -> SyncOptions {
    SyncOptions { fast_forward_only, only_new }
}

fn failed(message: &str) -> SyncAction {
    SyncAction::Finish(SyncStatus::Failed(FailureReason::Other(String::from(message))))
}

/// Feeds `events` to a new task and returns what it asked for.
fn actions(remotes: usize, options: SyncOptions, events: Vec<SyncEvent>) -> Vec<SyncAction> {
    let mut task = SyncTask::new(remotes, options);
    events.into_iter().map(|event| task.step(event)).collect()
}

#[test]
fn the_defaults_are_fast_forward_only_and_update_existing() {
    assert_eq!(SyncOptions::new(), options(true, false));
}

#[test]
fn an_existing_project_is_skipped_without_git_when_only_new_is_set() {
    for remotes in [0, 1, 5] {
        for fast_forward_only in [true, false] {
            let mut task = SyncTask::new(remotes, options(fast_forward_only, true));
            assert_eq!(task.state(), SyncState::Start);
            assert_eq!(
                task.step(SyncEvent::PathChecked(true)),
                SyncAction::Finish(SyncStatus::Skipped)
            );
            assert!(task.is_finished());
        }
    }
}

#[test]
fn a_missing_project_is_cloned_even_when_only_new_is_set() {
    let mut task = SyncTask::new(0, options(true, true));
    assert_eq!(task.step(SyncEvent::PathChecked(false)), SyncAction::Clone);
    assert_eq!(task.state(), SyncState::Cloning);
}

#[test]
fn syncing_twice_clones_and_then_finds_nothing_new() {
    let first = actions(
        0,
        SyncOptions::new(),
        vec![SyncEvent::PathChecked(false), SyncEvent::Succeeded, SyncEvent::HookExited(0)],
    );
    assert_eq!(
        first,
        vec![SyncAction::Clone, SyncAction::RunAfterClone, SyncAction::Finish(SyncStatus::Cloned)]
    );
    let second = actions(
        0,
        SyncOptions::new(),
        vec![
            SyncEvent::PathChecked(true),
            SyncEvent::Succeeded,
            SyncEvent::Analysed(MergeAnalysis::UpToDate),
        ],
    );
    assert_eq!(
        second,
        vec![
            SyncAction::FetchOrigin,
            SyncAction::Analyse,
            SyncAction::Finish(SyncStatus::UpToDate)
        ]
    );
}

#[test]
fn a_clone_configures_every_remote_before_the_hook() {
    let got = actions(
        3,
        SyncOptions::new(),
        vec![
            SyncEvent::PathChecked(false),
            SyncEvent::Succeeded,
            SyncEvent::Succeeded,
            SyncEvent::Succeeded,
            SyncEvent::Succeeded,
            SyncEvent::HookExited(0),
        ],
    );
    assert_eq!(
        got,
        vec![
            SyncAction::Clone,
            SyncAction::ConfigureRemote(0),
            SyncAction::ConfigureRemote(1),
            SyncAction::ConfigureRemote(2),
            SyncAction::RunAfterClone,
            SyncAction::Finish(SyncStatus::Cloned),
        ]
    );
}

#[test]
fn an_update_fetches_the_url_and_every_remote_once_it_is_configured() {
    let got = actions(
        2,
        SyncOptions::new(),
        vec![
            SyncEvent::PathChecked(true),
            SyncEvent::Succeeded,
            SyncEvent::Succeeded,
            SyncEvent::Succeeded,
            SyncEvent::Succeeded,
            SyncEvent::Succeeded,
            SyncEvent::Analysed(MergeAnalysis::FastForward),
            SyncEvent::Succeeded,
        ],
    );
    assert_eq!(
        got,
        vec![
            SyncAction::FetchOrigin,
            SyncAction::ConfigureRemote(0),
            SyncAction::FetchRemote(0),
            SyncAction::ConfigureRemote(1),
            SyncAction::FetchRemote(1),
            SyncAction::Analyse,
            SyncAction::FastForward,
            SyncAction::Finish(SyncStatus::Updated),
        ]
    );
}

#[test]
fn a_clone_alone_fails_where_the_path_is_occupied() {
    let mut task = SyncTask::new(1, SyncOptions::new());
    assert_eq!(
        task.step(SyncEvent::CloneRequested(PathState::Occupied)),
        failed("local path exists and is not empty")
    );
    assert!(task.is_finished());
}

#[test]
fn a_clone_alone_goes_ahead_where_the_path_is_free() {
    for path in [PathState::Missing, PathState::Empty] {
        let got = actions(
            1,
            SyncOptions::new(),
            vec![
                SyncEvent::CloneRequested(path),
                SyncEvent::Succeeded,
                SyncEvent::Succeeded,
                SyncEvent::HookExited(0),
            ],
        );
        assert_eq!(
            got,
            vec![
                SyncAction::Clone,
                SyncAction::ConfigureRemote(0),
                SyncAction::RunAfterClone,
                SyncAction::Finish(SyncStatus::Cloned),
            ]
        );
    }
}

#[test]
fn an_update_alone_does_not_look_at_the_path() {
    let got = actions(
        0,
        SyncOptions { fast_forward_only: true, only_new: true },
        vec![
            SyncEvent::UpdateRequested,
            SyncEvent::Succeeded,
            SyncEvent::Analysed(MergeAnalysis::UpToDate),
        ],
    );
    assert_eq!(
        got,
        vec![
            SyncAction::FetchOrigin,
            SyncAction::Analyse,
            SyncAction::Finish(SyncStatus::UpToDate)
        ]
    );
}

#[test]
fn a_request_in_the_middle_of_a_run_is_unexpected() {
    let mut task = SyncTask::new(0, SyncOptions::new());
    assert_eq!(task.step(SyncEvent::UpdateRequested), SyncAction::FetchOrigin);
    assert_eq!(task.step(SyncEvent::UpdateRequested), failed("unexpected report"));
    let mut task = SyncTask::new(0, SyncOptions::new());
    assert_eq!(task.step(SyncEvent::PathChecked(false)), SyncAction::Clone);
    assert_eq!(
        task.step(SyncEvent::CloneRequested(PathState::Missing)),
        failed("unexpected report")
    );
}

#[test]
fn diverged_histories_fail_when_only_fast_forward_is_allowed() {
    let got = actions(
        0,
        options(true, false),
        vec![
            SyncEvent::PathChecked(true),
            SyncEvent::Succeeded,
            SyncEvent::Analysed(MergeAnalysis::Diverged),
        ],
    );
    assert_eq!(
        got.last(),
        Some(&SyncAction::Finish(SyncStatus::Failed(FailureReason::DivergedHistory)))
    );
    assert!(!got.contains(&SyncAction::Merge));
}

#[test]
fn diverged_histories_are_merged_when_merges_are_allowed() {
    let got = actions(
        0,
        options(false, false),
        vec![
            SyncEvent::PathChecked(true),
            SyncEvent::Succeeded,
            SyncEvent::Analysed(MergeAnalysis::Diverged),
            SyncEvent::Succeeded,
        ],
    );
    assert_eq!(
        got,
        vec![
            SyncAction::FetchOrigin,
            SyncAction::Analyse,
            SyncAction::Merge,
            SyncAction::Finish(SyncStatus::Updated),
        ]
    );
}

#[test]
fn a_merge_that_conflicts_fails_with_its_reason() {
    let got = actions(
        0,
        options(false, false),
        vec![
            SyncEvent::PathChecked(true),
            SyncEvent::Succeeded,
            SyncEvent::Analysed(MergeAnalysis::Diverged),
            SyncEvent::Failed(FailureReason::Other(String::from("conflict in src/main.rs"))),
        ],
    );
    assert_eq!(got.last(), Some(&failed("conflict in src/main.rs")));
}

#[test]
fn a_step_that_fails_settles_the_status_with_its_reason() {
    let clone = actions(
        2,
        SyncOptions::new(),
        vec![SyncEvent::PathChecked(false), SyncEvent::Failed(FailureReason::NetworkError)],
    );
    assert_eq!(
        clone.last(),
        Some(&SyncAction::Finish(SyncStatus::Failed(FailureReason::NetworkError)))
    );
    let fetch = actions(
        2,
        SyncOptions::new(),
        vec![
            SyncEvent::PathChecked(true),
            SyncEvent::Succeeded,
            SyncEvent::Succeeded,
            SyncEvent::Failed(FailureReason::NotARepo),
        ],
    );
    assert_eq!(
        fetch,
        vec![
            SyncAction::FetchOrigin,
            SyncAction::ConfigureRemote(0),
            SyncAction::FetchRemote(0),
            SyncAction::Finish(SyncStatus::Failed(FailureReason::NotARepo)),
        ]
    );
    let forward = actions(
        0,
        SyncOptions::new(),
        vec![
            SyncEvent::PathChecked(true),
            SyncEvent::Succeeded,
            SyncEvent::Analysed(MergeAnalysis::FastForward),
            SyncEvent::Failed(FailureReason::DirtyWorkingTree),
        ],
    );
    assert_eq!(
        forward.last(),
        Some(&SyncAction::Finish(SyncStatus::Failed(FailureReason::DirtyWorkingTree)))
    );
}

#[test]
fn a_hook_that_exits_with_another_status_fails_the_clone() {
    let got = actions(
        0,
        SyncOptions::new(),
        vec![SyncEvent::PathChecked(false), SyncEvent::Succeeded, SyncEvent::HookExited(2)],
    );
    assert_eq!(got.last(), Some(&failed("after-clone hook failed")));
}

#[test]
fn a_report_that_answers_nothing_asked_fails_the_task() {
    let mut task = SyncTask::new(1, SyncOptions::new());
    assert_eq!(task.step(SyncEvent::Succeeded), failed("unexpected report"));
    assert!(task.is_finished());
    assert_eq!(task.step(SyncEvent::PathChecked(true)), failed("unexpected report"));
    assert_eq!(
        task.step(SyncEvent::Failed(FailureReason::NetworkError)),
        failed("unexpected report")
    );
    let mut early = SyncTask::new(1, SyncOptions::new());
    assert_eq!(
        early.step(SyncEvent::Failed(FailureReason::NetworkError)),
        failed("unexpected report")
    );
    let mut cloning = SyncTask::new(1, SyncOptions::new());
    assert_eq!(cloning.step(SyncEvent::PathChecked(false)), SyncAction::Clone);
    assert_eq!(cloning.step(SyncEvent::HookExited(0)), failed("unexpected report"));
    let mut fetching = SyncTask::new(1, SyncOptions::new());
    assert_eq!(fetching.step(SyncEvent::PathChecked(true)), SyncAction::FetchOrigin);
    assert_eq!(
        fetching.step(SyncEvent::Analysed(MergeAnalysis::UpToDate)),
        failed("unexpected report")
    );
}

#[test]
fn a_task_for_a_project_knows_its_remotes() {
    let mut project = Project::new(String::from("api"), String::from("git@example.org:api.git"));
    for name in ["upstream", "fork"] {
        let remote = Remote { name: String::from(name), url: format!("https://{}.example", name) };
        assert_eq!(project.add_remote(remote), Ok(()));
    }
    let mut task = SyncTask::for_project(&project, SyncOptions::new());
    assert_eq!(task.step(SyncEvent::PathChecked(true)), SyncAction::FetchOrigin);
    assert_eq!(task.step(SyncEvent::Succeeded), SyncAction::ConfigureRemote(0));
    assert_eq!(task.step(SyncEvent::Succeeded), SyncAction::FetchRemote(0));
    assert_eq!(task.step(SyncEvent::Succeeded), SyncAction::ConfigureRemote(1));
    assert_eq!(task.step(SyncEvent::Succeeded), SyncAction::FetchRemote(1));
    assert_eq!(task.step(SyncEvent::Succeeded), SyncAction::Analyse);
    assert_eq!(task.state(), SyncState::Analysing);
}

fn every_report() -> Vec<SyncEvent> {
    vec![
        SyncEvent::PathChecked(true),
        SyncEvent::PathChecked(false),
        SyncEvent::CloneRequested(PathState::Missing),
        SyncEvent::CloneRequested(PathState::Empty),
        SyncEvent::CloneRequested(PathState::Occupied),
        SyncEvent::UpdateRequested,
        SyncEvent::Succeeded,
        SyncEvent::Failed(FailureReason::NetworkError),
        SyncEvent::Analysed(MergeAnalysis::UpToDate),
        SyncEvent::Analysed(MergeAnalysis::FastForward),
        SyncEvent::Analysed(MergeAnalysis::Diverged),
        SyncEvent::HookExited(0),
        SyncEvent::HookExited(1),
    ]
}

/// The number of reports of the longest run from `task` on, which has taken
/// `taken` reports so far.
fn longest_run(task: SyncTask, taken: usize) -> usize {
    let mut longest = taken;
    for event in every_report() {
        let mut next = task;
        let action = next.step(event);
        let settled = matches!(action, SyncAction::Finish(_));
        assert_eq!(settled, next.is_finished());
        let length = if settled { taken + 1 } else { longest_run(next, taken + 1) };
        longest = longest.max(length);
    }
    longest
}

#[test]
fn every_synchronisation_ends_whatever_is_reported() {
    for remotes in 0..4 {
        for fast_forward_only in [true, false] {
            for only_new in [true, false] {
                let task = SyncTask::new(remotes, options(fast_forward_only, only_new));
                assert_eq!(longest_run(task, 0), 2 * remotes + 4);
            }
        }
    }
}

#[test]
fn the_default_options_are_the_new_ones() {
    assert_eq!(SyncOptions::default(), SyncOptions::new());
}
