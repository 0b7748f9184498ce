//! The workspace: its projects and tags, and the changes it accepts.

use vstd::prelude::*;
use vstd::string::*;
use crate::model::project::{Project, ProjectUpdate, ProjectUpdateView, ProjectView, Remote, RemoteView};
use crate::model::tag::{Tag, TagView};
use crate::model::ModelError;
use crate::names::{
    distinct_names,
    lemma_distinct_push,
    lemma_distinct_remove,
    lemma_position_found,
    lemma_position_unique,
    position_of,
    same_name,
};

verus! {

/// The projects and tags of one workspace.
#[derive(Debug, Clone, PartialEq, Eq)]
pub struct Workspace {
    projects: Vec<Project>,
    tags: Vec<Tag>,
}

/// A workspace as a value: its projects and its tags, each in the order in
/// which they were added.
pub struct WorkspaceView {
    pub projects: Seq<ProjectView>,
    pub tags: Seq<TagView>,
}

/// What a change leaves behind: the new model where it is accepted, the old
/// one and the reason where it is refused.
pub open spec fn applied(
    before: WorkspaceView,
    change: Result<WorkspaceView, ModelError>,
    after: WorkspaceView,
    r: Result<(), ModelError>,
) -> bool {
    match change {
        Ok(w) => r is Ok && after == w,
        Err(e) => r == Err::<(), ModelError>(e) && after == before,
    }
}

impl WorkspaceView {
    /// The names of the projects, in their order.
    pub open spec fn project_names(self) -> Seq<Seq<char>> {
        Seq::new(self.projects.len(), |i: int| self.projects[i].name)
    }

    /// The names of the tags, in their order.
    pub open spec fn tag_names(self) -> Seq<Seq<char>> {
        Seq::new(self.tags.len(), |i: int| self.tags[i].name)
    }

    /// Project names are unique, tag names are unique, and every project is
    /// well formed. A project may carry a tag that the workspace lacks.
    pub open spec fn wf(self) -> bool {
        &&& distinct_names(self.project_names())
        &&& distinct_names(self.tag_names())
        &&& forall|i: int| 0 <= i < self.projects.len() ==> (#[trigger] self.projects[i]).wf()
    }

    /// The place of the project `name`.
    pub open spec fn project_at(self, name: Seq<char>) -> Option<int> {
        position_of(self.project_names(), name)
    }

    /// The place of the tag `name`.
    pub open spec fn tag_at(self, name: Seq<char>) -> Option<int> {
        position_of(self.tag_names(), name)
    }

    /// The workspace with `project` added; a taken name is a conflict.
    pub open spec fn with_project(self, project: ProjectView) -> Result<
        WorkspaceView,
        ModelError,
    > {
        if self.project_at(project.name) is Some {
            Err(ModelError::Conflict)
        } else {
            Ok(WorkspaceView { projects: self.projects.push(project), ..self })
        }
    }

    /// The workspace without the project `name`, which must exist.
    pub open spec fn without_project(self, name: Seq<char>) -> Result<WorkspaceView, ModelError> {
        match self.project_at(name) {
            None => Err(ModelError::NotFound),
            Some(i) => Ok(WorkspaceView { projects: self.projects.remove(i), ..self }),
        }
    }

    /// The workspace with the project at `i` replaced by `project`.
    pub open spec fn with_project_at(self, i: int, project: ProjectView) -> WorkspaceView {
        WorkspaceView { projects: self.projects.update(i, project), ..self }
    }

    /// The workspace with `remote` added to `project`: not found without the
    /// project, a conflict if it has a remote of that name.
    pub open spec fn with_remote(self, project: Seq<char>, remote: RemoteView) -> Result<
        WorkspaceView,
        ModelError,
    > {
        match self.project_at(project) {
            None => Err(ModelError::NotFound),
            Some(i) => match self.projects[i].with_remote(remote) {
                Err(e) => Err(e),
                Ok(p) => Ok(self.with_project_at(i, p)),
            },
        }
    }

    /// The workspace with the remote `remote` taken from `project`: not
    /// found without the project or without the remote.
    pub open spec fn without_remote(self, project: Seq<char>, remote: Seq<char>) -> Result<
        WorkspaceView,
        ModelError,
    > {
        match self.project_at(project) {
            None => Err(ModelError::NotFound),
            Some(i) => match self.projects[i].without_remote(remote) {
                Err(e) => Err(e),
                Ok(p) => Ok(self.with_project_at(i, p)),
            },
        }
    }

    /// The workspace with the settings of `project` updated.
    pub open spec fn with_update(self, project: Seq<char>, update: ProjectUpdateView) -> Result<
        WorkspaceView,
        ModelError,
    > {
        match self.project_at(project) {
            None => Err(ModelError::NotFound),
            Some(i) => Ok(self.with_project_at(i, self.projects[i].updated(update))),
        }
    }

    /// The workspace with `project` carrying `tag`, whether or not a tag of
    /// that name is defined.
    pub open spec fn with_project_tagged(self, project: Seq<char>, tag: Seq<char>) -> Result<
        WorkspaceView,
        ModelError,
    > {
        match self.project_at(project) {
            None => Err(ModelError::NotFound),
            Some(i) => Ok(self.with_project_at(i, self.projects[i].tagged(tag))),
        }
    }

    /// The workspace with `project` not carrying `tag`.
    pub open spec fn with_project_untagged(self, project: Seq<char>, tag: Seq<char>) -> Result<
        WorkspaceView,
        ModelError,
    > {
        match self.project_at(project) {
            None => Err(ModelError::NotFound),
            Some(i) => Ok(self.with_project_at(i, self.projects[i].untagged(tag))),
        }
    }

    /// The workspace with `tag` defined: in the place of the tag of that
    /// name if there is one, else at the end.
    pub open spec fn with_tag(self, tag: TagView) -> WorkspaceView {
        match self.tag_at(tag.name) {
            Some(i) => WorkspaceView { tags: self.tags.update(i, tag), ..self },
            None => WorkspaceView { tags: self.tags.push(tag), ..self },
        }
    }

    /// The workspace without the definition of the tag `name`, which must
    /// exist. The projects keep what they carry.
    pub open spec fn without_tag(self, name: Seq<char>) -> Result<WorkspaceView, ModelError> {
        match self.tag_at(name) {
            None => Err(ModelError::NotFound),
            Some(i) => Ok(WorkspaceView { tags: self.tags.remove(i), ..self }),
        }
    }
}

/// Replacing a project by one of the same name keeps a workspace well
/// formed.
pub proof fn lemma_with_project_at_wf(w: WorkspaceView, i: int, project: ProjectView)
    requires
        w.wf(),
        0 <= i < w.projects.len(),
        project.wf(),
        project.name == w.projects[i].name,
    ensures
        w.with_project_at(i, project).wf(),
{
    let after = w.with_project_at(i, project);
    assert(after.project_names() =~= w.project_names());
    assert(after.tag_names() =~= w.tag_names());
    assert forall|k: int| 0 <= k < after.projects.len() implies (#[trigger] after.projects[k]).wf() by {
        if k != i {
            assert(w.projects[k].wf());
        }
    }
}

/// A workspace in which at most the project at `i` changed, keeping its
/// name and its well-formedness, is the old one with that project replaced.
proof fn lemma_project_changed(before: WorkspaceView, after: WorkspaceView, i: int)
    requires
        before.wf(),
        0 <= i < before.projects.len(),
        after.tags == before.tags,
        after.projects.len() == before.projects.len(),
        forall|k: int| 0 <= k < before.projects.len() && k != i ==> after.projects[k] == before.projects[k],
        after.projects[i].wf(),
        after.projects[i].name == before.projects[i].name,
    ensures
        after == before.with_project_at(i, after.projects[i]),
        after.projects[i] == before.projects[i] ==> after == before,
        after.wf(),
{
    assert(after.projects =~= before.projects.update(i, after.projects[i]));
    if after.projects[i] == before.projects[i] {
        assert(after.projects =~= before.projects);
    }
    lemma_with_project_at_wf(before, i, after.projects[i]);
}

impl View for Workspace {
    type V = WorkspaceView;

    closed spec fn view(&self) -> WorkspaceView {
        WorkspaceView {
            projects: Seq::new(self.projects@.len(), |i: int| self.projects@[i]@),
            tags: Seq::new(self.tags@.len(), |i: int| self.tags@[i]@),
        }
    }
}

impl Default for Workspace {
    fn default() -> (w: Workspace)
        ensures
            w@.projects.len() == 0,
            w@.tags.len() == 0,
            w@.wf(),
    {
        Workspace::new()
    }
}

impl Workspace {
    /// A workspace without projects or tags.
    pub fn new() -> (w: Workspace)
        ensures
            w@.projects.len() == 0,
            w@.tags.len() == 0,
            w@.wf(),
    {
        Workspace { projects: Vec::new(), tags: Vec::new() }
    }

    /// The projects, in the order in which they were added.
    pub fn projects(&self) -> (r: &Vec<Project>)
        ensures
            r@.len() == self@.projects.len(),
            forall|i: int| 0 <= i < r@.len() ==> (#[trigger] r@[i])@ == self@.projects[i],
    {
        &self.projects
    }

    /// The tags that are defined, in the order in which they were added.
    pub fn tags(&self) -> (r: &Vec<Tag>)
        ensures
            r@.len() == self@.tags.len(),
            forall|i: int| 0 <= i < r@.len() ==> (#[trigger] r@[i])@ == self@.tags[i],
    {
        &self.tags
    }

    /// The place of the project `name`, if the workspace has it.
    pub fn project_index(&self, name: &str) -> (r: Option<usize>)
        requires
            self@.wf(),
        ensures
            match r {
                Some(i) => self@.project_at(name@) == Some(i as int),
                None => self@.project_at(name@) is None,
            },
    {
        let mut i: usize = 0;
        while i < self.projects.len()
            invariant
                i <= self.projects@.len(),
                self@.wf(),
                forall|j: int| 0 <= j < i ==> self@.project_names()[j] != name@,
            decreases self.projects@.len() - i,
        {
            if same_name(self.projects[i].name(), name) {
                proof {
                    lemma_position_unique(self@.project_names(), name@, i as int);
                }
                return Some(i);
            }
            i += 1;
        }
        None
    }

    /// The place of the tag `name`, if the workspace defines it.
    pub fn tag_index(&self, name: &str) -> (r: Option<usize>)
        requires
            self@.wf(),
        ensures
            match r {
                Some(i) => self@.tag_at(name@) == Some(i as int),
                None => self@.tag_at(name@) is None,
            },
    {
        let mut i: usize = 0;
        while i < self.tags.len()
            invariant
                i <= self.tags@.len(),
                self@.wf(),
                forall|j: int| 0 <= j < i ==> self@.tag_names()[j] != name@,
            decreases self.tags@.len() - i,
        {
            if same_name(self.tags[i].name.as_str(), name) {
                proof {
                    lemma_position_unique(self@.tag_names(), name@, i as int);
                }
                return Some(i);
            }
            i += 1;
        }
        None
    }

    /// Adds `project`; refused as a conflict if a project of that name
    /// exists.
    pub fn add_project(&mut self, project: Project) -> (r: Result<(), ModelError>)
        requires
            old(self)@.wf(),
            project@.wf(),
        ensures
            final(self)@.wf(),
            applied(old(self)@, old(self)@.with_project(project@), final(self)@, r),
    {
        if self.project_index(project.name()).is_some() {
            return Err(ModelError::Conflict);
        }
        self.projects.push(project);
        proof {
            assert(self@.projects =~= old(self)@.projects.push(project@));
            assert(self@.tags =~= old(self)@.tags);
            lemma_position_found(old(self)@.project_names(), project@.name);
            lemma_distinct_push(old(self)@.project_names(), project@.name);
            assert(self@.project_names() =~= old(self)@.project_names().push(project@.name));
        }
        Ok(())
    }

    /// Removes the project `name` and hands it out; refused as not found if
    /// there is none.
    pub fn remove_project(&mut self, name: &str) -> (r: Result<Project, ModelError>)
        requires
            old(self)@.wf(),
        ensures
            final(self)@.wf(),
            match old(self)@.project_at(name@) {
                Some(i) => r matches Ok(p) && p@ == old(self)@.projects[i] && Ok::<
                    WorkspaceView,
                    ModelError,
                >(final(self)@) == old(self)@.without_project(name@),
                None => r matches Err(ModelError::NotFound) && final(self)@ == old(self)@,
            },
    {
        match self.project_index(name) {
            None => Err(ModelError::NotFound),
            Some(i) => {
                let project = self.projects.remove(i);
                proof {
                    lemma_position_found(old(self)@.project_names(), name@);
                    assert(self@.projects =~= old(self)@.projects.remove(i as int));
                    assert(self@.tags =~= old(self)@.tags);
                    lemma_distinct_remove(old(self)@.project_names(), i as int);
                    assert(self@.project_names() =~= old(self)@.project_names().remove(i as int));
                    assert forall|k: int| 0 <= k < self@.projects.len() implies (
                    #[trigger] self@.projects[k]).wf() by {
                        assert(old(self)@.projects[if k < i { k } else { k + 1 }].wf());
                    }
                }
                Ok(project)
            },
        }
    }

    /// Adds `remote` to `project`: not found without the project, a
    /// conflict if it has a remote of that name.
    pub fn add_remote(&mut self, project: &str, remote: Remote) -> (r: Result<(), ModelError>)
        requires
            old(self)@.wf(),
        ensures
            final(self)@.wf(),
            applied(old(self)@, old(self)@.with_remote(project@, remote@), final(self)@, r),
    {
        match self.project_index(project) {
            None => Err(ModelError::NotFound),
            Some(i) => {
                proof {
                    lemma_position_found(old(self)@.project_names(), project@);
                }
                let r = self.projects[i].add_remote(remote);
                proof {
                    lemma_project_changed(old(self)@, self@, i as int);
                }
                r
            },
        }
    }

    /// Removes the remote `remote` from `project`: not found without the
    /// project or without the remote, and then nothing changes.
    pub fn remove_remote(&mut self, project: &str, remote: &str) -> (r: Result<(), ModelError>)
        requires
            old(self)@.wf(),
        ensures
            final(self)@.wf(),
            applied(old(self)@, old(self)@.without_remote(project@, remote@), final(self)@, r),
    {
        match self.project_index(project) {
            None => Err(ModelError::NotFound),
            Some(i) => {
                proof {
                    lemma_position_found(old(self)@.project_names(), project@);
                }
                let r = self.projects[i].remove_remote(remote);
                proof {
                    lemma_project_changed(old(self)@, self@, i as int);
                }
                r
            },
        }
    }

    /// Replaces the settings of `project` that `update` names; not found
    /// without the project.
    pub fn update_project(&mut self, project: &str, update: ProjectUpdate) -> (r: Result<
        (),
        ModelError,
    >)
        requires
            old(self)@.wf(),
        ensures
            final(self)@.wf(),
            applied(old(self)@, old(self)@.with_update(project@, update@), final(self)@, r),
    {
        match self.project_index(project) {
            None => Err(ModelError::NotFound),
            Some(i) => {
                proof {
                    lemma_position_found(old(self)@.project_names(), project@);
                }
                self.projects[i].apply_update(update);
                proof {
                    lemma_project_changed(old(self)@, self@, i as int);
                }
                Ok(())
            },
        }
    }

    /// Makes `project` carry `tag`, which need not be defined; nothing
    /// changes if it carries it already. Not found without the project.
    pub fn tag_project(&mut self, project: &str, tag: String) -> (r: Result<(), ModelError>)
        requires
            old(self)@.wf(),
        ensures
            final(self)@.wf(),
            applied(old(self)@, old(self)@.with_project_tagged(project@, tag@), final(self)@, r),
    {
        match self.project_index(project) {
            None => Err(ModelError::NotFound),
            Some(i) => {
                proof {
                    lemma_position_found(old(self)@.project_names(), project@);
                }
                self.projects[i].add_tag(tag);
                proof {
                    lemma_project_changed(old(self)@, self@, i as int);
                }
                Ok(())
            },
        }
    }

    /// Makes `project` no longer carry `tag`; nothing changes if it does
    /// not carry it. Not found without the project.
    pub fn untag_project(&mut self, project: &str, tag: &str) -> (r: Result<(), ModelError>)
        requires
            old(self)@.wf(),
        ensures
            final(self)@.wf(),
            applied(old(self)@, old(self)@.with_project_untagged(project@, tag@), final(self)@, r),
    {
        match self.project_index(project) {
            None => Err(ModelError::NotFound),
            Some(i) => {
                proof {
                    lemma_position_found(old(self)@.project_names(), project@);
                }
                self.projects[i].remove_tag(tag);
                proof {
                    lemma_project_changed(old(self)@, self@, i as int);
                }
                Ok(())
            },
        }
    }

    /// Defines `tag`, in place of the tag of that name if there is one.
    /// `true` if it replaced one.
    pub fn add_tag(&mut self, tag: Tag) -> (replaced: bool)
        requires
            old(self)@.wf(),
        ensures
            final(self)@.wf(),
            final(self)@ == old(self)@.with_tag(tag@),
            replaced == old(self)@.tag_at(tag@.name) is Some,
    {
        match self.tag_index(tag.name.as_str()) {
            Some(i) => {
                proof {
                    lemma_position_found(old(self)@.tag_names(), tag@.name);
                }
                self.tags[i] = tag;
                proof {
                    assert(self@.tags =~= old(self)@.tags.update(i as int, tag@));
                    assert(self@.projects =~= old(self)@.projects);
                    assert(self@.tag_names() =~= old(self)@.tag_names());
                    assert(self@.project_names() =~= old(self)@.project_names());
                }
                true
            },
            None => {
                self.tags.push(tag);
                proof {
                    assert(self@.tags =~= old(self)@.tags.push(tag@));
                    assert(self@.projects =~= old(self)@.projects);
                    lemma_position_found(old(self)@.tag_names(), tag@.name);
                    lemma_distinct_push(old(self)@.tag_names(), tag@.name);
                    assert(self@.tag_names() =~= old(self)@.tag_names().push(tag@.name));
                    assert(self@.project_names() =~= old(self)@.project_names());
                }
                false
            },
        }
    }

    /// Removes the definition of the tag `name`; refused as not found if
    /// there is none. Projects that carry the tag keep carrying it.
    pub fn remove_tag(&mut self, name: &str) -> (r: Result<(), ModelError>)
        requires
            old(self)@.wf(),
        ensures
            final(self)@.wf(),
            applied(old(self)@, old(self)@.without_tag(name@), final(self)@, r),
    {
        match self.tag_index(name) {
            None => Err(ModelError::NotFound),
            Some(i) => {
                self.tags.remove(i);
                proof {
                    lemma_position_found(old(self)@.tag_names(), name@);
                    assert(self@.tags =~= old(self)@.tags.remove(i as int));
                    assert(self@.projects =~= old(self)@.projects);
                    lemma_distinct_remove(old(self)@.tag_names(), i as int);
                    assert(self@.tag_names() =~= old(self)@.tag_names().remove(i as int));
                    assert(self@.project_names() =~= old(self)@.project_names());
                }
                Ok(())
            },
        }
    }

    /// The project `name`, if the workspace has it.
    pub fn find_project(&self, name: &str) -> (r: Option<&Project>)
        requires
            self@.wf(),
        ensures
            match self@.project_at(name@) {
                Some(i) => r matches Some(p) && p@ == self@.projects[i],
                None => r is None,
            },
    {
        match self.project_index(name) {
            None => None,
            Some(i) => {
                proof {
                    lemma_position_found(self@.project_names(), name@);
                }
                Some(&self.projects[i])
            },
        }
    }

    /// The definition of the tag `name`, if the workspace has one.
    pub fn find_tag(&self, name: &str) -> (r: Option<&Tag>)
        requires
            self@.wf(),
        ensures
            match self@.tag_at(name@) {
                Some(i) => r matches Some(t) && t@ == self@.tags[i],
                None => r is None,
            },
    {
        match self.tag_index(name) {
            None => None,
            Some(i) => {
                proof {
                    lemma_position_found(self@.tag_names(), name@);
                }
                Some(&self.tags[i])
            },
        }
    }
}

} // verus!
