use fw::hooks::{precedes, HookKind};
use fw::model::{Project, Tag, Workspace};

fn tag(name: &str, priority: i32, after_clone: Option<&str>, after_workon: Option<&str>) -> Tag {
    Tag {
        name: String::from(name),
        after_clone: after_clone.map(String::from),
        after_workon: after_workon.map(String::from),
        workspace: None,
        priority,
    }
}

fn project_with_tags(tags: &[&str]) -> Project {
    let mut project = Project::new(String::from("api"), String::from("git@example.org:api.git"));
    for t in tags {
        project.add_tag(String::from(*t));
    }
    project
}

fn workspace_with(tags: Vec<Tag>) -> Workspace {
    let mut workspace = Workspace::new();
    for t in tags {
        workspace.add_tag(t);
    }
    workspace
}

fn order_names(workspace: &Workspace, project: &Project) -> Vec<String> {
    workspace.hook_order(project).iter().map(|t| t.name.clone()).collect()
}

#[test]
fn the_higher_priority_runs_first() {
    let workspace = workspace_with(vec![
        tag("backend", 10, Some("echo A"), None),
        tag("infra", 1, Some("echo B"), None),
    ]);
    let project = project_with_tags(&["backend", "infra"]);
    assert_eq!(workspace.effective_hook(&project, HookKind::Clone), "echo A\necho B");
}

#[test]
fn the_order_of_definition_and_of_tagging_plays_no_part() {
    let a = tag("backend", 10, Some("echo A"), None);
    let b = tag("infra", 1, Some("echo B"), None);
    let c = tag("rust", 5, Some("echo C"), None);
    let first = workspace_with(vec![a.clone(), b.clone(), c.clone()]);
    let second = workspace_with(vec![c, b, a]);
    let p1 = project_with_tags(&["backend", "infra", "rust"]);
    let p2 = project_with_tags(&["rust", "infra", "backend"]);
    let expected = "echo A\necho C\necho B";
    assert_eq!(first.effective_hook(&p1, HookKind::Clone), expected);
    assert_eq!(first.effective_hook(&p2, HookKind::Clone), expected);
    assert_eq!(second.effective_hook(&p1, HookKind::Clone), expected);
    assert_eq!(second.effective_hook(&p2, HookKind::Clone), expected);
    assert_eq!(first.effective_hook(&p1, HookKind::Clone), expected);
}

#[test]
fn equal_priorities_run_by_ascending_name() {
    let workspace = workspace_with(vec![
        tag("zeta", 3, Some("echo Z"), None),
        tag("alpha", 3, Some("echo A"), None),
        tag("mid", 3, Some("echo M"), None),
    ]);
    let project = project_with_tags(&["zeta", "mid", "alpha"]);
    assert_eq!(order_names(&workspace, &project), vec!["alpha", "mid", "zeta"]);
    assert_eq!(workspace.effective_hook(&project, HookKind::Clone), "echo A\necho M\necho Z");
}

#[test]
fn negative_priorities_run_after_the_default() {
    let workspace = workspace_with(vec![
        tag("late", -1, Some("echo L"), None),
        tag("plain", 0, Some("echo P"), None),
        tag("early", 1, Some("echo E"), None),
    ]);
    let project = project_with_tags(&["late", "plain", "early"]);
    assert_eq!(workspace.effective_hook(&project, HookKind::Clone), "echo E\necho P\necho L");
}

#[test]
fn the_projects_own_hook_runs_last() {
    let workspace = workspace_with(vec![
        tag("backend", 10, Some("echo A"), None),
        tag("infra", 1, Some("echo B"), None),
    ]);
    let mut project = project_with_tags(&["infra", "backend"]);
    project.set_after_clone(Some(String::from("echo own")));
    assert_eq!(workspace.effective_hook(&project, HookKind::Clone), "echo A\necho B\necho own");
}

#[test]
fn no_applicable_hook_gives_an_empty_script() {
    let workspace = workspace_with(vec![tag("backend", 10, None, None)]);
    assert_eq!(workspace.effective_hook(&project_with_tags(&[]), HookKind::Clone), "");
    assert_eq!(workspace.effective_hook(&project_with_tags(&["backend"]), HookKind::Clone), "");
    assert_eq!(workspace.effective_hook(&project_with_tags(&["backend"]), HookKind::Workon), "");
    assert_eq!(Workspace::new().effective_hook(&project_with_tags(&["x"]), HookKind::Clone), "");
}

#[test]
fn only_the_projects_own_hook_gives_that_hook() {
    let workspace = Workspace::new();
    let mut project = project_with_tags(&[]);
    project.set_after_workon(Some(String::from("source .env")));
    assert_eq!(workspace.effective_hook(&project, HookKind::Workon), "source .env");
    assert_eq!(workspace.effective_hook(&project, HookKind::Clone), "");
}

#[test]
fn tags_that_the_project_does_not_carry_have_no_part() {
    let workspace = workspace_with(vec![
        tag("backend", 10, Some("echo A"), None),
        tag("infra", 1, Some("echo B"), None),
    ]);
    let project = project_with_tags(&["infra"]);
    assert_eq!(workspace.effective_hook(&project, HookKind::Clone), "echo B");
}

#[test]
fn a_tag_without_definition_is_passed_over() {
    let mut workspace = workspace_with(vec![
        tag("backend", 10, Some("echo A"), None),
        tag("infra", 1, Some("echo B"), None),
    ]);
    let project = project_with_tags(&["backend", "infra"]);
    assert_eq!(workspace.remove_tag("backend"), Ok(()));
    assert_eq!(workspace.effective_hook(&project, HookKind::Clone), "echo B");
    assert_eq!(order_names(&workspace, &project), vec!["infra"]);
}

#[test]
fn each_kind_has_its_own_scripts() {
    let workspace = workspace_with(vec![
        tag("backend", 10, Some("echo clone A"), Some("echo workon A")),
        tag("infra", 1, None, Some("echo workon B")),
    ]);
    let mut project = project_with_tags(&["backend", "infra"]);
    project.set_after_clone(Some(String::from("echo clone own")));
    assert_eq!(workspace.effective_hook(&project, HookKind::Clone), "echo clone A\necho clone own");
    assert_eq!(
        workspace.effective_hook(&project, HookKind::Workon),
        "echo workon A\necho workon B"
    );
}

#[test]
fn a_tag_without_a_script_stays_in_the_order() {
    let workspace = workspace_with(vec![
        tag("backend", 10, None, None),
        tag("infra", 1, Some("echo B"), None),
    ]);
    let project = project_with_tags(&["backend", "infra"]);
    assert_eq!(order_names(&workspace, &project), vec!["backend", "infra"]);
    assert_eq!(workspace.effective_hook(&project, HookKind::Clone), "echo B");
}

#[test]
fn an_empty_script_is_a_line_of_its_own() {
    let workspace = workspace_with(vec![
        tag("backend", 10, Some(""), None),
        tag("infra", 1, Some("echo B"), None),
    ]);
    let project = project_with_tags(&["backend", "infra"]);
    assert_eq!(workspace.effective_hook(&project, HookKind::Clone), "\necho B");
}

#[test]
fn scripts_of_several_lines_are_kept_as_they_are() {
    let workspace = workspace_with(vec![tag("backend", 10, Some("a\nb\n"), None)]);
    let mut project = project_with_tags(&["backend"]);
    project.set_after_clone(Some(String::from("c")));
    assert_eq!(workspace.effective_hook(&project, HookKind::Clone), "a\nb\n\nc");
}

#[test]
fn precedence_goes_by_priority_then_name() {
    let high = tag("zeta", 10, None, None);
    let low = tag("alpha", 1, None, None);
    let low_later = tag("beta", 1, None, None);
    assert!(precedes(&high, &low));
    assert!(!precedes(&low, &high));
    assert!(precedes(&low, &low_later));
    assert!(!precedes(&low_later, &low));
    assert!(!precedes(&low, &low));
}
