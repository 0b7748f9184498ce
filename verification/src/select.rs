//! Selecting projects by the tags they carry.

use vstd::prelude::*;
use vstd::string::*;
use crate::model::{Project, ProjectView, Workspace};
use crate::names::distinct_names;

verus! {

/// The texts of `names`.
pub open spec fn texts(names: Seq<String>) -> Seq<Seq<char>> {
    Seq::new(names.len(), |i: int| names[i]@)
}

/// The views of `projects`.
pub open spec fn project_views(projects: Seq<Project>) -> Seq<ProjectView> {
    Seq::new(projects.len(), |i: int| projects[i]@)
}

/// The views of the projects that `projects` refers to.
pub open spec fn selected_views(projects: Seq<&Project>) -> Seq<ProjectView> {
    Seq::new(projects.len(), |i: int| projects[i]@)
}

/// Whether a request for the tags `requested` selects `p`: every project
/// when no tag is requested, else each project that carries at least one of
/// the requested tags. A requested tag that no project carries, defined or
/// not, selects nothing and is no error.
pub open spec fn selects(requested: Seq<Seq<char>>, p: ProjectView) -> bool {
    requested.len() == 0 || exists|k: int| 0 <= k < requested.len() && p.carries(requested[k])
}

/// The projects of `projects` that `requested` selects, in their order.
pub open spec fn selection(projects: Seq<ProjectView>, requested: Seq<Seq<char>>) -> Seq<
    ProjectView,
> {
    projects.filter(|p: ProjectView| selects(requested, p))
}

/// The names of `projects`, in their order.
pub open spec fn names_of(projects: Seq<ProjectView>) -> Seq<Seq<char>> {
    Seq::new(projects.len(), |i: int| projects[i].name)
}

/// A request for no tag selects every project.
pub proof fn lemma_empty_request_selects_all(projects: Seq<ProjectView>)
    ensures
        selection(projects, Seq::empty()) == projects,
    decreases projects.len(),
{
    let pred = |p: ProjectView| selects(Seq::<Seq<char>>::empty(), p);
    reveal(Seq::filter);
    if projects.len() > 0 {
        lemma_empty_request_selects_all(projects.drop_last());
        assert(pred(projects.last()));
        assert(projects.drop_last().push(projects.last()) =~= projects);
    }
}

/// A selection holds exactly the selected projects of the list, in the
/// order of the list: it is the list with the others left out.
pub proof fn lemma_selection_members(
    projects: Seq<ProjectView>,
    requested: Seq<Seq<char>>,
    p: ProjectView,
)
    ensures
        selection(projects, requested).contains(p) <==> projects.contains(p) && selects(
            requested,
            p,
        ),
{
    let pred = |p: ProjectView| selects(requested, p);
    let chosen = projects.filter(pred);
    if chosen.contains(p) {
        let k = choose|k: int| 0 <= k < chosen.len() && chosen[k] == p;
        projects.lemma_filter_pred(pred, k);
        projects.lemma_filter_contains_rev(pred, p);
    }
    if projects.contains(p) && selects(requested, p) {
        let i = choose|i: int| 0 <= i < projects.len() && projects[i] == p;
        projects.lemma_filter_contains(pred, i);
    }
}

/// Among projects of distinct names a selection yields each project at most
/// once.
pub proof fn lemma_selection_distinct(projects: Seq<ProjectView>, requested: Seq<Seq<char>>)
    requires
        distinct_names(names_of(projects)),
    ensures
        distinct_names(names_of(selection(projects, requested))),
    decreases projects.len(),
{
    let pred = |p: ProjectView| selects(requested, p);
    reveal(Seq::filter);
    if projects.len() > 0 {
        let rest = projects.drop_last();
        let last = projects.last();
        assert(distinct_names(names_of(rest))) by {
            assert forall|i: int, j: int| 0 <= i < j < rest.len() implies names_of(rest)[i]
                != names_of(rest)[j] by {
                assert(names_of(projects)[i] != names_of(projects)[j]);
            }
        }
        lemma_selection_distinct(rest, requested);
        let chosen = rest.filter(pred);
        if pred(last) {
            let longer = chosen.push(last);
            assert forall|i: int, j: int| 0 <= i < j < longer.len() implies names_of(longer)[i]
                != names_of(longer)[j] by {
                if j == chosen.len() {
                    assert(chosen.contains(chosen[i]));
                    rest.lemma_filter_contains_rev(pred, chosen[i]);
                    let k = choose|k: int| 0 <= k < rest.len() && rest[k] == chosen[i];
                    assert(names_of(projects)[k] != names_of(projects)[projects.len() - 1]);
                } else {
                    assert(names_of(chosen)[i] != names_of(chosen)[j]);
                }
            }
        }
    }
}

/// Whether a request for the tags `requested` selects `project`.
pub fn is_selected(project: &Project, requested: &Vec<String>) -> (r: bool)
    ensures
        r == selects(texts(requested@), project@),
{
    if requested.len() == 0 {
        return true;
    }
    let mut k: usize = 0;
    while k < requested.len()
        invariant
            k <= requested@.len(),
            forall|j: int| 0 <= j < k ==> !project@.carries(texts(requested@)[j]),
        decreases requested@.len() - k,
    {
        if project.carries(requested[k].as_str()) {
            assert(project@.carries(texts(requested@)[k as int]));
            return true;
        }
        k += 1;
    }
    false
}

/// The projects of `projects` that carry at least one of the tags
/// `requested`, or all of them when no tag is requested, in their order.
pub fn select<'a>(projects: &'a Vec<Project>, requested: &Vec<String>) -> (selected: Vec<
    &'a Project,
>)
    ensures
        selected_views(selected@) == selection(project_views(projects@), texts(requested@)),
{
    let mut selected: Vec<&Project> = Vec::new();
    let ghost all = project_views(projects@);
    let ghost pred = |p: ProjectView| selects(texts(requested@), p);
    let mut i: usize = 0;
    proof {
        reveal(Seq::filter);
        assert(all.take(0) =~= Seq::empty());
        assert(selected_views(selected@) =~= all.take(0).filter(pred));
    }
    while i < projects.len()
        invariant
            i <= projects@.len(),
            all == project_views(projects@),
            pred == |p: ProjectView| selects(texts(requested@), p),
            selected_views(selected@) == all.take(i as int).filter(pred),
        decreases projects@.len() - i,
    {
        let ghost before = selected_views(selected@);
        proof {
            all.take(i as int).lemma_filter_push(all[i as int], pred);
            assert(all.take(i as int).push(all[i as int]) =~= all.take(i + 1));
        }
        if is_selected(&projects[i], requested) {
            selected.push(&projects[i]);
            assert(selected_views(selected@) =~= before.push(all[i as int]));
        }
        i += 1;
    }
    assert(all.take(projects@.len() as int) =~= all);
    selected
}

impl Workspace {
    /// The projects of the workspace that the tag filter `filter` selects:
    /// all of them for an empty filter, else those that carry at least one
    /// of its tags. Each project is yielded once, in the workspace's order.
    pub fn resolve_projects(&self, filter: &Vec<String>) -> (selected: Vec<&Project>)
        ensures
            selected_views(selected@) == selection(self@.projects, texts(filter@)),
    {
        let projects = self.projects();
        assert(project_views(projects@) =~= self@.projects);
        select(projects, filter)
    }
}

} // verus!
