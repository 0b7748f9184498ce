use fw::model::{ModelError, Project, ProjectUpdate, Remote, Tag, Workspace};

fn project(name: &str) -> Project {
    Project::new(String::from(name), format!("git@example.org:{}.git", name))
}

fn remote(name: &str, url: &str) -> Remote {
    Remote { name: String::from(name), url: String::from(url) }
}

fn workspace_of(names: &[&str]) -> Workspace {
    let mut workspace = Workspace::new();
    for name in names {
        assert_eq!(workspace.add_project(project(name)), Ok(()));
    }
    workspace
}

fn names(workspace: &Workspace) -> Vec<String> {
    workspace.projects().iter().map(|p| String::from(p.name())).collect()
}

#[test]
fn a_new_workspace_is_empty() {
    let workspace = Workspace::new();
    assert!(workspace.projects().is_empty());
    assert!(workspace.tags().is_empty());
    assert!(workspace.find_project("api").is_none());
    assert!(workspace.find_tag("backend").is_none());
}

#[test]
fn a_new_project_lives_under_its_name() {
    let p = project("api");
    assert_eq!(p.name(), "api");
    assert_eq!(p.git_url(), "git@example.org:api.git");
    assert_eq!(p.local_path(), "api");
    assert!(p.remotes().is_empty());
    assert!(p.tags().is_empty());
    assert_eq!(p.after_clone(), &None);
    assert_eq!(p.after_workon(), &None);
}

#[test]
fn an_override_replaces_the_derived_path() {
    let mut p = project("api");
    p.set_override_path(Some(String::from("/srv/checkouts/api")));
    assert_eq!(p.local_path(), "/srv/checkouts/api");
    p.set_override_path(None);
    assert_eq!(p.local_path(), "api");
}

#[test]
fn projects_keep_the_order_in_which_they_were_added() {
    let workspace = workspace_of(&["web", "api", "docs"]);
    assert_eq!(names(&workspace), vec!["web", "api", "docs"]);
    assert_eq!(workspace.project_index("web"), Some(0));
    assert_eq!(workspace.project_index("api"), Some(1));
    assert_eq!(workspace.project_index("docs"), Some(2));
    assert_eq!(workspace.project_index("ops"), None);
}

#[test]
fn adding_a_project_twice_is_a_conflict_and_changes_nothing() {
    let mut workspace = workspace_of(&["web", "api"]);
    let before = workspace.clone();
    let mut again = project("api");
    again.set_git_url(String::from("git@elsewhere.org:api.git"));
    assert_eq!(workspace.add_project(again), Err(ModelError::Conflict));
    assert_eq!(workspace, before);
    assert_eq!(workspace.find_project("api").unwrap().git_url(), "git@example.org:api.git");
}

#[test]
fn removing_a_project_hands_it_out() {
    let mut workspace = workspace_of(&["web", "api", "docs"]);
    let removed = workspace.remove_project("api").unwrap();
    assert_eq!(removed, project("api"));
    assert_eq!(names(&workspace), vec!["web", "docs"]);
    assert!(workspace.find_project("api").is_none());
}

#[test]
fn removing_an_unknown_project_is_not_found_and_changes_nothing() {
    let mut workspace = workspace_of(&["web", "api"]);
    let before = workspace.clone();
    assert_eq!(workspace.remove_project("ops"), Err(ModelError::NotFound));
    assert_eq!(workspace, before);
}

#[test]
fn remotes_are_added_in_order() {
    let mut workspace = workspace_of(&["api"]);
    assert_eq!(workspace.add_remote("api", remote("upstream", "https://a.example/api")), Ok(()));
    assert_eq!(workspace.add_remote("api", remote("fork", "https://b.example/api")), Ok(()));
    let p = workspace.find_project("api").unwrap();
    assert_eq!(
        p.remotes(),
        &vec![remote("upstream", "https://a.example/api"), remote("fork", "https://b.example/api")]
    );
}

#[test]
fn adding_a_remote_under_a_taken_name_is_a_conflict() {
    let mut workspace = workspace_of(&["api"]);
    assert_eq!(workspace.add_remote("api", remote("upstream", "https://a.example/api")), Ok(()));
    let before = workspace.clone();
    assert_eq!(
        workspace.add_remote("api", remote("upstream", "https://other.example/api")),
        Err(ModelError::Conflict)
    );
    assert_eq!(workspace, before);
}

#[test]
fn adding_a_remote_to_an_unknown_project_is_not_found() {
    let mut workspace = workspace_of(&["api"]);
    let before = workspace.clone();
    assert_eq!(
        workspace.add_remote("ops", remote("upstream", "https://a.example/ops")),
        Err(ModelError::NotFound)
    );
    assert_eq!(workspace, before);
}

#[test]
fn the_same_remote_name_may_be_used_by_two_projects() {
    let mut workspace = workspace_of(&["api", "web"]);
    assert_eq!(workspace.add_remote("api", remote("upstream", "https://a.example/api")), Ok(()));
    assert_eq!(workspace.add_remote("web", remote("upstream", "https://a.example/web")), Ok(()));
}

#[test]
fn removing_a_missing_remote_is_not_found_and_leaves_the_remotes_unchanged() {
    let mut workspace = workspace_of(&["api"]);
    assert_eq!(workspace.add_remote("api", remote("origin1", "https://a.example/api")), Ok(()));
    let before = workspace.clone();
    assert_eq!(workspace.remove_remote("api", "origin2"), Err(ModelError::NotFound));
    assert_eq!(workspace, before);
    assert_eq!(
        workspace.find_project("api").unwrap().remotes(),
        &vec![remote("origin1", "https://a.example/api")]
    );
}

#[test]
fn removing_a_remote_of_an_unknown_project_is_not_found() {
    let mut workspace = workspace_of(&["api"]);
    assert_eq!(workspace.remove_remote("ops", "origin"), Err(ModelError::NotFound));
}

#[test]
fn removing_a_remote_keeps_the_others_in_order() {
    let mut workspace = workspace_of(&["api"]);
    for name in ["a", "b", "c"] {
        assert_eq!(workspace.add_remote("api", remote(name, "https://x.example/api")), Ok(()));
    }
    assert_eq!(workspace.remove_remote("api", "b"), Ok(()));
    let left: Vec<&str> =
        workspace.find_project("api").unwrap().remotes().iter().map(|r| r.name.as_str()).collect();
    assert_eq!(left, vec!["a", "c"]);
    assert_eq!(workspace.remove_remote("api", "b"), Err(ModelError::NotFound));
}

#[test]
fn an_update_replaces_what_it_names_and_keeps_the_rest() {
    let mut workspace = workspace_of(&["api"]);
    let first = ProjectUpdate {
        git_url: None,
        override_path: Some(String::from("/srv/api")),
        after_clone: Some(String::from("make setup")),
        after_workon: None,
    };
    assert_eq!(workspace.update_project("api", first), Ok(()));
    let second = ProjectUpdate {
        git_url: Some(String::from("git@new.example:api.git")),
        override_path: None,
        after_clone: None,
        after_workon: Some(String::from("nvm use")),
    };
    assert_eq!(workspace.update_project("api", second), Ok(()));
    let p = workspace.find_project("api").unwrap();
    assert_eq!(p.name(), "api");
    assert_eq!(p.git_url(), "git@new.example:api.git");
    assert_eq!(p.local_path(), "/srv/api");
    assert_eq!(p.after_clone(), &Some(String::from("make setup")));
    assert_eq!(p.after_workon(), &Some(String::from("nvm use")));
}

#[test]
fn updating_an_unknown_project_is_not_found() {
    let mut workspace = workspace_of(&["api"]);
    let before = workspace.clone();
    let update = ProjectUpdate {
        git_url: Some(String::from("git@new.example:ops.git")),
        override_path: None,
        after_clone: None,
        after_workon: None,
    };
    assert_eq!(workspace.update_project("ops", update), Err(ModelError::NotFound));
    assert_eq!(workspace, before);
}

#[test]
fn tagging_is_idempotent() {
    let mut workspace = workspace_of(&["api"]);
    assert_eq!(workspace.tag_project("api", String::from("backend")), Ok(()));
    let once = workspace.clone();
    assert_eq!(workspace.tag_project("api", String::from("backend")), Ok(()));
    assert_eq!(workspace, once);
    assert_eq!(workspace.find_project("api").unwrap().tags(), &vec![String::from("backend")]);
    assert!(workspace.find_project("api").unwrap().carries("backend"));
    assert!(!workspace.find_project("api").unwrap().carries("infra"));
}

#[test]
fn a_project_may_carry_a_tag_that_is_not_defined() {
    let mut workspace = workspace_of(&["api"]);
    assert!(workspace.find_tag("ghost").is_none());
    assert_eq!(workspace.tag_project("api", String::from("ghost")), Ok(()));
    assert!(workspace.find_project("api").unwrap().carries("ghost"));
}

#[test]
fn tagging_an_unknown_project_is_not_found() {
    let mut workspace = workspace_of(&["api"]);
    assert_eq!(workspace.tag_project("ops", String::from("backend")), Err(ModelError::NotFound));
    assert_eq!(workspace.untag_project("ops", "backend"), Err(ModelError::NotFound));
}

#[test]
fn untagging_takes_the_tag_and_nothing_else() {
    let mut workspace = workspace_of(&["api"]);
    for tag in ["backend", "infra", "rust"] {
        assert_eq!(workspace.tag_project("api", String::from(tag)), Ok(()));
    }
    assert_eq!(workspace.untag_project("api", "infra"), Ok(()));
    assert_eq!(
        workspace.find_project("api").unwrap().tags(),
        &vec![String::from("backend"), String::from("rust")]
    );
    let before = workspace.clone();
    assert_eq!(workspace.untag_project("api", "infra"), Ok(()));
    assert_eq!(workspace, before);
}

#[test]
fn a_tag_starts_with_priority_zero() {
    let tag = Tag::new(String::from("backend"));
    assert_eq!(tag.name, "backend");
    assert_eq!(tag.priority, 0);
    assert_eq!(tag.after_clone, None);
    assert_eq!(tag.after_workon, None);
    assert_eq!(tag.workspace, None);
}

#[test]
fn adding_a_tag_again_replaces_it_whole() {
    let mut workspace = Workspace::new();
    let mut first = Tag::new(String::from("backend"));
    first.priority = 10;
    first.after_clone = Some(String::from("echo A"));
    first.workspace = Some(String::from("services"));
    assert!(!workspace.add_tag(first));
    assert!(!workspace.add_tag(Tag::new(String::from("infra"))));
    let mut second = Tag::new(String::from("backend"));
    second.after_workon = Some(String::from("echo W"));
    assert!(workspace.add_tag(second.clone()));
    assert_eq!(workspace.tags().len(), 2);
    assert_eq!(workspace.tag_index("backend"), Some(0));
    assert_eq!(workspace.find_tag("backend"), Some(&second));
    assert_eq!(workspace.find_tag("backend").unwrap().priority, 0);
    assert_eq!(workspace.find_tag("backend").unwrap().after_clone, None);
    assert_eq!(workspace.find_tag("backend").unwrap().workspace, None);
}

#[test]
fn removing_a_tag_does_not_untag_its_projects() {
    let mut workspace = workspace_of(&["api"]);
    workspace.add_tag(Tag::new(String::from("backend")));
    assert_eq!(workspace.tag_project("api", String::from("backend")), Ok(()));
    assert_eq!(workspace.remove_tag("backend"), Ok(()));
    assert!(workspace.find_tag("backend").is_none());
    assert!(workspace.find_project("api").unwrap().carries("backend"));
    assert_eq!(workspace.remove_tag("backend"), Err(ModelError::NotFound));
}

#[test]
fn project_and_tag_names_live_in_separate_namespaces() {
    let mut workspace = workspace_of(&["api"]);
    assert!(!workspace.add_tag(Tag::new(String::from("api"))));
    assert!(workspace.find_project("api").is_some());
    assert!(workspace.find_tag("api").is_some());
}

#[test]
fn a_project_refuses_a_second_remote_of_the_same_name() {
    let mut p = project("api");
    assert_eq!(p.add_remote(remote("upstream", "https://a.example/api")), Ok(()));
    assert_eq!(p.add_remote(remote("upstream", "https://b.example/api")), Err(ModelError::Conflict));
    assert_eq!(p.remotes().len(), 1);
    assert_eq!(p.remove_remote("fork"), Err(ModelError::NotFound));
    assert_eq!(p.remove_remote("upstream"), Ok(()));
    assert!(p.remotes().is_empty());
}

#[test]
fn a_project_says_whether_a_tag_was_new() {
    let mut p = project("api");
    assert!(p.add_tag(String::from("backend")));
    assert!(!p.add_tag(String::from("backend")));
    assert!(p.remove_tag("backend"));
    assert!(!p.remove_tag("backend"));
    assert!(p.tags().is_empty());
}

#[test]
fn the_default_workspace_is_empty() {
    assert_eq!(Workspace::default(), Workspace::new());
}
