use fw::autotag::has_passed;
use fw::model::{Project, Workspace};
use fw::outcome::{CommandOutcome, CommandStatus, FailureReason};

fn workspace() -> Workspace {
    let mut workspace = Workspace::new();
    for name in ["api", "web", "ops"] {
        let project = Project::new(String::from(name), format!("git@example.org:{}.git", name));
        assert_eq!(workspace.add_project(project), Ok(()));
    }
    assert_eq!(workspace.tag_project("web", String::from("legacy")), Ok(()));
    workspace
}

fn ran(project: &str, status: CommandStatus) -> CommandOutcome {
    CommandOutcome { project: String::from(project), status, log: String::new() }
}

fn tags_of(workspace: &Workspace, project: &str) -> Vec<String> {
    workspace.find_project(project).unwrap().tags().clone()
}

#[test]
fn a_project_is_tagged_when_its_command_exits_with_zero() {
    let mut workspace = workspace();
    let outcomes = vec![
        ran("api", CommandStatus::ExitCode(0)),
        ran("web", CommandStatus::ExitCode(1)),
        ran("ops", CommandStatus::Failed(FailureReason::Other(String::from("command not found")))),
    ];
    assert_eq!(workspace.autotag("rust", &outcomes), 1);
    assert_eq!(tags_of(&workspace, "api"), vec!["rust"]);
    assert_eq!(tags_of(&workspace, "web"), vec!["legacy"]);
    assert!(tags_of(&workspace, "ops").is_empty());
}

#[test]
fn tagging_by_command_never_removes_a_tag() {
    let mut workspace = workspace();
    assert_eq!(workspace.tag_project("api", String::from("rust")), Ok(()));
    let before = workspace.clone();
    let outcomes = vec![
        ran("api", CommandStatus::ExitCode(1)),
        ran("web", CommandStatus::Failed(FailureReason::NetworkError)),
    ];
    assert_eq!(workspace.autotag("rust", &outcomes), 0);
    assert_eq!(workspace, before);
}

#[test]
fn a_project_that_carries_the_tag_is_left_as_it_is() {
    for status in [
        CommandStatus::ExitCode(0),
        CommandStatus::ExitCode(1),
        CommandStatus::Failed(FailureReason::NotARepo),
    ] {
        let mut workspace = workspace();
        let before = workspace.clone();
        assert_eq!(workspace.autotag("legacy", &vec![ran("web", status)]), 0);
        assert_eq!(workspace, before);
    }
}

#[test]
fn tagging_by_command_twice_changes_nothing_more() {
    let mut workspace = workspace();
    let outcomes = vec![ran("api", CommandStatus::ExitCode(0)), ran("ops", CommandStatus::ExitCode(0))];
    assert_eq!(workspace.autotag("rust", &outcomes), 2);
    let once = workspace.clone();
    assert_eq!(workspace.autotag("rust", &outcomes), 0);
    assert_eq!(workspace, once);
}

#[test]
fn an_outcome_for_an_unknown_project_changes_nothing() {
    let mut workspace = workspace();
    let before = workspace.clone();
    assert_eq!(workspace.autotag("rust", &vec![ran("docs", CommandStatus::ExitCode(0))]), 0);
    assert_eq!(workspace, before);
    assert_eq!(workspace.autotag("rust", &Vec::new()), 0);
    assert_eq!(workspace, before);
}

#[test]
fn the_tag_need_not_be_defined() {
    let mut workspace = workspace();
    assert!(workspace.find_tag("rust").is_none());
    assert_eq!(workspace.autotag("rust", &vec![ran("api", CommandStatus::ExitCode(0))]), 1);
    assert!(workspace.find_project("api").unwrap().carries("rust"));
    assert!(workspace.find_tag("rust").is_none());
}

#[test]
fn one_passing_outcome_among_several_is_enough() {
    let outcomes = vec![
        ran("api", CommandStatus::ExitCode(1)),
        ran("api", CommandStatus::ExitCode(0)),
        ran("web", CommandStatus::ExitCode(2)),
    ];
    assert!(has_passed(&outcomes, "api"));
    assert!(!has_passed(&outcomes, "web"));
    assert!(!has_passed(&outcomes, "ops"));
    assert!(!has_passed(&Vec::new(), "api"));
}
