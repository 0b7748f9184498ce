//! Tagging by command: a project gets a tag when the command that was run
//! for it exited with status 0. Tags are only ever added this way.

use vstd::prelude::*;
use vstd::string::*;
use crate::model::{ProjectView, Workspace, WorkspaceView};
use crate::names::{lemma_position_unique, same_name};
use crate::outcome::{count_where, lemma_count_push, CommandOutcome, CommandStatus, CommandStatusView};

verus! {

/// Whether the command of `outcome` was run for `project` and exited with
/// status 0.
pub open spec fn passes(outcome: CommandOutcome, project: Seq<char>) -> bool {
    outcome.project@ == project && outcome.status@ == CommandStatusView::ExitCode(0)
}

/// Whether `outcomes` hold a command that was run for `project` and exited
/// with status 0.
pub open spec fn passed(outcomes: Seq<CommandOutcome>, project: Seq<char>) -> bool {
    exists|k: int| 0 <= k < outcomes.len() && passes(#[trigger] outcomes[k], project)
}

/// The project after tagging by command: it carries `tag` if its command
/// passed, and is unchanged if not.
pub open spec fn autotagged_project(
    p: ProjectView,
    tag: Seq<char>,
    outcomes: Seq<CommandOutcome>,
) -> ProjectView {
    if passed(outcomes, p.name) {
        p.tagged(tag)
    } else {
        p
    }
}

/// The workspace after tagging by command: every project whose command
/// passed carries `tag`, and nothing else has changed. An outcome for a
/// project that the workspace does not have changes nothing.
pub open spec fn autotagged(
    w: WorkspaceView,
    tag: Seq<char>,
    outcomes: Seq<CommandOutcome>,
) -> WorkspaceView {
    WorkspaceView {
        projects: Seq::new(
            w.projects.len(),
            |i: int| autotagged_project(w.projects[i], tag, outcomes),
        ),
        ..w
    }
}

/// The test for a project that gets `tag` and did not carry it.
pub open spec fn gets_tag(tag: Seq<char>, outcomes: Seq<CommandOutcome>) -> spec_fn(
    ProjectView,
) -> bool {
    |p: ProjectView| passed(outcomes, p.name) && !p.carries(tag)
}

/// How many projects get `tag` that did not carry it.
pub open spec fn newly_tagged(w: WorkspaceView, tag: Seq<char>, outcomes: Seq<CommandOutcome>) -> nat {
    count_where(w.projects, gets_tag(tag, outcomes))
}

/// Tagging by command never takes a tag away, and a project that carries
/// the tag already is left exactly as it is, whatever its command did.
pub proof fn lemma_autotag_only_adds(
    w: WorkspaceView,
    tag: Seq<char>,
    outcomes: Seq<CommandOutcome>,
    i: int,
)
    requires
        0 <= i < w.projects.len(),
    ensures
        forall|t: Seq<char>|
            w.projects[i].carries(t) ==> autotagged(w, tag, outcomes).projects[i].carries(t),
        w.projects[i].carries(tag) ==> autotagged(w, tag, outcomes).projects[i] == w.projects[i],
        !passed(outcomes, w.projects[i].name) ==> autotagged(w, tag, outcomes).projects[i]
            == w.projects[i],
{
    let before = w.projects[i];
    let after = autotagged(w, tag, outcomes).projects[i];
    assert forall|t: Seq<char>| before.carries(t) implies after.carries(t) by {
        let k = choose|k: int| 0 <= k < before.tags.len() && before.tags[k] == t;
        if after != before {
            assert(after.tags[k] == t);
        }
    }
}

/// Tagging by command a second time, with the same outcomes, changes
/// nothing more.
pub proof fn lemma_autotag_idempotent(w: WorkspaceView, tag: Seq<char>, outcomes: Seq<CommandOutcome>)
    ensures
        autotagged(autotagged(w, tag, outcomes), tag, outcomes) == autotagged(w, tag, outcomes),
{
    let once = autotagged(w, tag, outcomes);
    let twice = autotagged(once, tag, outcomes);
    assert forall|i: int| 0 <= i < once.projects.len() implies twice.projects[i]
        == once.projects[i] by {
        let p = w.projects[i];
        if passed(outcomes, p.name) {
            if !p.carries(tag) {
                assert(p.tagged(tag).tags[p.tags.len() as int] == tag);
            }
            assert(p.tagged(tag).carries(tag));
        }
    }
    assert(twice.projects =~= once.projects);
}

/// Whether `outcomes` hold a command that was run for `project` and exited
/// with status 0.
pub fn has_passed(outcomes: &Vec<CommandOutcome>, project: &str) -> (r: bool)
    ensures
        r == passed(outcomes@, project@),
{
    let mut k: usize = 0;
    while k < outcomes.len()
        invariant
            k <= outcomes@.len(),
            forall|j: int| 0 <= j < k ==> !passes(#[trigger] outcomes@[j], project@),
        decreases outcomes@.len() - k,
    {
        let passes_here = match &outcomes[k].status {
            CommandStatus::ExitCode(code) => *code == 0,
            CommandStatus::Failed(_) => false,
        };
        if passes_here && same_name(outcomes[k].project.as_str(), project) {
            assert(passes(outcomes@[k as int], project@));
            return true;
        }
        k += 1;
    }
    false
}

impl Workspace {
    /// Gives `tag` to every project whose command, as `outcomes` record
    /// it, exited with status 0, and returns how many projects got it that
    /// did not carry it before. A project whose command failed or exited
    /// with another status keeps the tags it has, `tag` among them if it
    /// carried it.
    pub fn autotag(&mut self, tag: &str, outcomes: &Vec<CommandOutcome>) -> (added: usize)
        requires
            old(self)@.wf(),
        ensures
            final(self)@.wf(),
            final(self)@ == autotagged(old(self)@, tag@, outcomes@),
            added == newly_tagged(old(self)@, tag@, outcomes@),
    {
        let mut added: usize = 0;
        let mut i: usize = 0;
        let n = self.projects().len();
        proof {
            assert(old(self)@.projects.take(0) =~= Seq::empty());
            reveal(Seq::filter);
        }
        while i < n
            invariant
                i <= n,
                n == old(self)@.projects.len(),
                added <= i,
                added == count_where(old(self)@.projects.take(i as int), gets_tag(tag@, outcomes@)),
                old(self)@.wf(),
                self@.wf(),
                self@.tags == old(self)@.tags,
                self@.projects.len() == n,
                forall|j: int|
                    0 <= j < i ==> self@.projects[j] == autotagged_project(
                        old(self)@.projects[j],
                        tag@,
                        outcomes@,
                    ),
                forall|j: int| i <= j < n ==> self@.projects[j] == old(self)@.projects[j],
            decreases n - i,
        {
            let ghost before = self@;
            proof {
                let all = old(self)@.projects;
                lemma_count_push(all.take(i as int), all[i as int], gets_tag(tag@, outcomes@));
                assert(all.take(i as int).push(all[i as int]) =~= all.take(i + 1));
            }
            let name = String::from_str(self.projects()[i].name());
            assert(name@ == before.projects[i as int].name);
            if has_passed(outcomes, name.as_str()) {
                proof {
                    assert(before.project_names()[i as int] == name@);
                    lemma_position_unique(before.project_names(), name@, i as int);
                }
                let carried = self.projects()[i].carries(tag);
                let r = self.tag_project(name.as_str(), String::from_str(tag));
                assert(r is Ok);
                if !carried {
                    added = added + 1;
                }
            }
            i += 1;
        }
        proof {
            assert(self@.projects =~= autotagged(old(self)@, tag@, outcomes@).projects);
            assert(old(self)@.projects.take(n as int) =~= old(self)@.projects);
        }
        added
    }
}

} // verus!
