//! Projects and their remotes.

use vstd::prelude::*;
use vstd::string::*;
use crate::model::{text_of, ModelError};
use crate::names::{
    distinct_names,
    has_name,
    lemma_distinct_push,
    lemma_distinct_remove,
    lemma_position_unique,
    position_of,
    same_name,
};

verus! {

/// A named remote of a project.
#[derive(Debug, Clone, PartialEq, Eq)]
pub struct Remote {
    pub name: String,
    pub url: String,
}

/// A remote as a value: its name and its url as texts.
pub struct RemoteView {
    pub name: Seq<char>,
    pub url: Seq<char>,
}

impl View for Remote {
    type V = RemoteView;

    open spec fn view(&self) -> RemoteView {
        RemoteView { name: self.name@, url: self.url@ }
    }
}

/// One git repository of the workspace.
#[derive(Debug, Clone, PartialEq, Eq)]
pub struct Project {
    name: String,
    git_url: String,
    override_path: Option<String>,
    remotes: Vec<Remote>,
    after_clone: Option<String>,
    after_workon: Option<String>,
    tags: Vec<String>,
}

/// A project as a value: its settings as texts, its remotes and its tags in
/// the order in which it got them.
pub struct ProjectView {
    pub name: Seq<char>,
    pub git_url: Seq<char>,
    pub override_path: Option<Seq<char>>,
    pub remotes: Seq<RemoteView>,
    pub after_clone: Option<Seq<char>>,
    pub after_workon: Option<Seq<char>>,
    pub tags: Seq<Seq<char>>,
}

impl ProjectView {
    /// The names of the remotes, in their order.
    pub open spec fn remote_names(self) -> Seq<Seq<char>> {
        Seq::new(self.remotes.len(), |i: int| self.remotes[i].name)
    }

    /// Remote names are unique within the project, and so are its tags.
    pub open spec fn wf(self) -> bool {
        &&& distinct_names(self.remote_names())
        &&& distinct_names(self.tags)
    }

    /// Where the clone lives: the override if there is one, else the name.
    pub open spec fn local_path(self) -> Seq<char> {
        match self.override_path {
            Some(path) => path,
            None => self.name,
        }
    }

    /// Whether the project carries `tag`.
    pub open spec fn carries(self, tag: Seq<char>) -> bool {
        has_name(self.tags, tag)
    }

    /// The project with `remote` added; a taken name is a conflict.
    pub open spec fn with_remote(self, remote: RemoteView) -> Result<ProjectView, ModelError> {
        if has_name(self.remote_names(), remote.name) {
            Err(ModelError::Conflict)
        } else {
            Ok(ProjectView { remotes: self.remotes.push(remote), ..self })
        }
    }

    /// The project without the remote `name`, which must exist.
    pub open spec fn without_remote(self, name: Seq<char>) -> Result<ProjectView, ModelError> {
        match position_of(self.remote_names(), name) {
            None => Err(ModelError::NotFound),
            Some(i) => Ok(ProjectView { remotes: self.remotes.remove(i), ..self }),
        }
    }

    /// The project carrying `tag`: unchanged if it already does.
    pub open spec fn tagged(self, tag: Seq<char>) -> ProjectView {
        if self.carries(tag) {
            self
        } else {
            ProjectView { tags: self.tags.push(tag), ..self }
        }
    }

    /// The project not carrying `tag`: unchanged if it does not.
    pub open spec fn untagged(self, tag: Seq<char>) -> ProjectView {
        match position_of(self.tags, tag) {
            None => self,
            Some(i) => ProjectView { tags: self.tags.remove(i), ..self },
        }
    }
}

impl View for Project {
    type V = ProjectView;

    closed spec fn view(&self) -> ProjectView {
        ProjectView {
            name: self.name@,
            git_url: self.git_url@,
            override_path: text_of(self.override_path),
            remotes: Seq::new(self.remotes@.len(), |i: int| self.remotes@[i]@),
            after_clone: text_of(self.after_clone),
            after_workon: text_of(self.after_workon),
            tags: Seq::new(self.tags@.len(), |i: int| self.tags@[i]@),
        }
    }
}

impl Project {
    /// A project without remotes, hooks or tags, cloned into a directory of
    /// its own name.
    pub fn new(name: String, git_url: String) -> (p: Project)
        ensures
            p@ == (ProjectView {
                name: name@,
                git_url: git_url@,
                override_path: None,
                remotes: Seq::empty(),
                after_clone: None,
                after_workon: None,
                tags: Seq::empty(),
            }),
            p@.wf(),
    {
        let p = Project {
            name,
            git_url,
            override_path: None,
            remotes: Vec::new(),
            after_clone: None,
            after_workon: None,
            tags: Vec::new(),
        };
        assert(p@.remotes =~= Seq::empty());
        assert(p@.tags =~= Seq::empty());
        p
    }

    /// The name, which identifies the project in its workspace.
    pub fn name(&self) -> (r: &str)
        ensures
            r@ == self@.name,
    {
        self.name.as_str()
    }

    /// The url that the project is cloned from.
    pub fn git_url(&self) -> (r: &str)
        ensures
            r@ == self@.git_url,
    {
        self.git_url.as_str()
    }

    /// Where the clone lives: the override if there is one, else the name.
    pub fn local_path(&self) -> (r: &str)
        ensures
            r@ == self@.local_path(),
    {
        match &self.override_path {
            Some(path) => path.as_str(),
            None => self.name.as_str(),
        }
    }

    /// The project's own script to run after a clone.
    pub fn after_clone(&self) -> (r: &Option<String>)
        ensures
            text_of(*r) == self@.after_clone,
    {
        &self.after_clone
    }

    /// The project's own script to run when it is entered.
    pub fn after_workon(&self) -> (r: &Option<String>)
        ensures
            text_of(*r) == self@.after_workon,
    {
        &self.after_workon
    }

    /// The remotes besides the url, in the order in which they were added.
    pub fn remotes(&self) -> (r: &Vec<Remote>)
        ensures
            r@.len() == self@.remotes.len(),
            forall|i: int| 0 <= i < r@.len() ==> (#[trigger] r@[i])@ == self@.remotes[i],
    {
        &self.remotes
    }

    /// The names of the tags that the project carries, in the order in
    /// which it got them.
    pub fn tags(&self) -> (r: &Vec<String>)
        ensures
            r@.len() == self@.tags.len(),
            forall|i: int| 0 <= i < r@.len() ==> (#[trigger] r@[i])@ == self@.tags[i],
    {
        &self.tags
    }

    /// The place of the remote `name`, if the project has it.
    fn find_remote(&self, name: &str) -> (r: Option<usize>)
        ensures
            match r {
                Some(i) => i < self@.remotes.len() && self@.remotes[i as int].name == name@,
                None => !has_name(self@.remote_names(), name@),
            },
    {
        let mut i: usize = 0;
        while i < self.remotes.len()
            invariant
                i <= self.remotes@.len(),
                forall|j: int| 0 <= j < i ==> self@.remotes[j].name != name@,
            decreases self.remotes@.len() - i,
        {
            if same_name(self.remotes[i].name.as_str(), name) {
                return Some(i);
            }
            i += 1;
        }
        None
    }

    /// The place of `tag` among the project's tags, if it carries it.
    fn find_tag(&self, tag: &str) -> (r: Option<usize>)
        ensures
            match r {
                Some(i) => i < self@.tags.len() && self@.tags[i as int] == tag@,
                None => !self@.carries(tag@),
            },
    {
        let mut i: usize = 0;
        while i < self.tags.len()
            invariant
                i <= self.tags@.len(),
                forall|j: int| 0 <= j < i ==> self@.tags[j] != tag@,
            decreases self.tags@.len() - i,
        {
            if same_name(self.tags[i].as_str(), tag) {
                return Some(i);
            }
            i += 1;
        }
        None
    }

    /// Whether the project carries `tag`.
    pub fn carries(&self, tag: &str) -> (r: bool)
        ensures
            r == self@.carries(tag@),
    {
        self.find_tag(tag).is_some()
    }

    /// Replaces the url.
    pub fn set_git_url(&mut self, git_url: String)
        ensures
            final(self)@ == (ProjectView { git_url: git_url@, ..old(self)@ }),
    {
        self.git_url = git_url;
    }

    /// Sets where the clone lives, or lets it live under the project's name
    /// again.
    pub fn set_override_path(&mut self, path: Option<String>)
        ensures
            final(self)@ == (ProjectView { override_path: text_of(path), ..old(self)@ }),
    {
        self.override_path = path;
    }

    /// Sets or takes away the project's own script to run after a clone.
    pub fn set_after_clone(&mut self, script: Option<String>)
        ensures
            final(self)@ == (ProjectView { after_clone: text_of(script), ..old(self)@ }),
    {
        self.after_clone = script;
    }

    /// Sets or takes away the project's own script to run when it is
    /// entered.
    pub fn set_after_workon(&mut self, script: Option<String>)
        ensures
            final(self)@ == (ProjectView { after_workon: text_of(script), ..old(self)@ }),
    {
        self.after_workon = script;
    }

    /// Adds `remote`; refused as a conflict if the project has a remote of
    /// that name.
    pub fn add_remote(&mut self, remote: Remote) -> (r: Result<(), ModelError>)
        requires
            old(self)@.wf(),
        ensures
            final(self)@.wf(),
            match old(self)@.with_remote(remote@) {
                Ok(p) => r is Ok && final(self)@ == p,
                Err(e) => r == Err::<(), ModelError>(e) && final(self)@ == old(self)@,
            },
    {
        match self.find_remote(remote.name.as_str()) {
            Some(i) => {
                assert(old(self)@.remote_names()[i as int] == remote@.name);
                Err(ModelError::Conflict)
            },
            None => {
                self.remotes.push(remote);
                proof {
                    assert(self@.remotes =~= old(self)@.remotes.push(remote@));
                    assert(self@.tags =~= old(self)@.tags);
                    lemma_distinct_push(old(self)@.remote_names(), remote@.name);
                    assert(self@.remote_names() =~= old(self)@.remote_names().push(remote@.name));
                }
                Ok(())
            },
        }
    }

    /// Removes the remote `name`; refused as not found if the project has
    /// none of that name.
    pub fn remove_remote(&mut self, name: &str) -> (r: Result<(), ModelError>)
        requires
            old(self)@.wf(),
        ensures
            final(self)@.wf(),
            match old(self)@.without_remote(name@) {
                Ok(p) => r is Ok && final(self)@ == p,
                Err(e) => r == Err::<(), ModelError>(e) && final(self)@ == old(self)@,
            },
    {
        match self.find_remote(name) {
            None => Err(ModelError::NotFound),
            Some(i) => {
                proof {
                    lemma_position_unique(old(self)@.remote_names(), name@, i as int);
                }
                self.remotes.remove(i);
                proof {
                    assert(self@.remotes =~= old(self)@.remotes.remove(i as int));
                    assert(self@.tags =~= old(self)@.tags);
                    lemma_distinct_remove(old(self)@.remote_names(), i as int);
                    assert(self@.remote_names() =~= old(self)@.remote_names().remove(i as int));
                }
                Ok(())
            },
        }
    }

    /// Makes the project carry `tag`; `true` if it did not before.
    pub fn add_tag(&mut self, tag: String) -> (added: bool)
        requires
            old(self)@.wf(),
        ensures
            final(self)@.wf(),
            final(self)@ == old(self)@.tagged(tag@),
            added == !old(self)@.carries(tag@),
    {
        if self.find_tag(tag.as_str()).is_some() {
            return false;
        }
        self.tags.push(tag);
        proof {
            assert(self@.tags =~= old(self)@.tags.push(tag@));
            assert(self@.remotes =~= old(self)@.remotes);
            lemma_distinct_push(old(self)@.tags, tag@);
        }
        true
    }

    /// Makes the project no longer carry `tag`; `true` if it did before.
    pub fn remove_tag(&mut self, tag: &str) -> (removed: bool)
        requires
            old(self)@.wf(),
        ensures
            final(self)@.wf(),
            final(self)@ == old(self)@.untagged(tag@),
            removed == old(self)@.carries(tag@),
    {
        match self.find_tag(tag) {
            None => false,
            Some(i) => {
                proof {
                    lemma_position_unique(old(self)@.tags, tag@, i as int);
                }
                self.tags.remove(i);
                proof {
                    assert(self@.tags =~= old(self)@.tags.remove(i as int));
                    assert(self@.remotes =~= old(self)@.remotes);
                    lemma_distinct_remove(old(self)@.tags, i as int);
                }
                true
            },
        }
    }
}

/// The settings of a project that an update replaces; `None` keeps what
/// the project has.
#[derive(Debug, Clone, PartialEq, Eq)]
pub struct ProjectUpdate {
    pub git_url: Option<String>,
    pub override_path: Option<String>,
    pub after_clone: Option<String>,
    pub after_workon: Option<String>,
}

/// An update as a value.
pub struct ProjectUpdateView {
    pub git_url: Option<Seq<char>>,
    pub override_path: Option<Seq<char>>,
    pub after_clone: Option<Seq<char>>,
    pub after_workon: Option<Seq<char>>,
}

impl View for ProjectUpdate {
    type V = ProjectUpdateView;

    open spec fn view(&self) -> ProjectUpdateView {
        ProjectUpdateView {
            git_url: text_of(self.git_url),
            override_path: text_of(self.override_path),
            after_clone: text_of(self.after_clone),
            after_workon: text_of(self.after_workon),
        }
    }
}

impl ProjectView {
    /// The project with every setting that `update` names replaced.
    pub open spec fn updated(self, update: ProjectUpdateView) -> ProjectView {
        ProjectView {
            git_url: match update.git_url {
                Some(url) => url,
                None => self.git_url,
            },
            override_path: if update.override_path is Some {
                update.override_path
            } else {
                self.override_path
            },
            after_clone: if update.after_clone is Some {
                update.after_clone
            } else {
                self.after_clone
            },
            after_workon: if update.after_workon is Some {
                update.after_workon
            } else {
                self.after_workon
            },
            ..self
        }
    }
}

impl Project {
    /// Replaces every setting that `update` names.
    pub fn apply_update(&mut self, update: ProjectUpdate)
        ensures
            final(self)@ == old(self)@.updated(update@),
    {
        let ProjectUpdate { git_url, override_path, after_clone, after_workon } = update;
        if let Some(url) = git_url {
            self.git_url = url;
        }
        if override_path.is_some() {
            self.override_path = override_path;
        }
        if after_clone.is_some() {
            self.after_clone = after_clone;
        }
        if after_workon.is_some() {
            self.after_workon = after_workon;
        }
    }
}

} // verus!
