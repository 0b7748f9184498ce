//! Hook scripts: what runs after a project is cloned or entered, composed
//! from the tags it carries and from the project itself.

use vstd::prelude::*;
use vstd::string::*;
use crate::model::{text_of, Project, ProjectView, Tag, TagView, Workspace, WorkspaceView};
use crate::names::{comes_before, lemma_name_order, name_before};

verus! {

/// The occasion on which a hook runs.
#[derive(Debug, Clone, Copy, PartialEq, Eq)]
pub enum HookKind {
    /// After the project was cloned.
    Clone,
    /// After the project was entered to work on it.
    Workon,
}

impl TagView {
    /// The tag's script for `kind`, if it has one.
    pub open spec fn hook(self, kind: HookKind) -> Option<Seq<char>> {
        match kind {
            HookKind::Clone => self.after_clone,
            HookKind::Workon => self.after_workon,
        }
    }
}

impl ProjectView {
    /// The project's own script for `kind`, if it has one.
    pub open spec fn hook(self, kind: HookKind) -> Option<Seq<char>> {
        match kind {
            HookKind::Clone => self.after_clone,
            HookKind::Workon => self.after_workon,
        }
    }
}

/// Whether the hooks of `a` run before those of `b`: the higher priority
/// first, and of two equal priorities the name that sorts first.
pub open spec fn tag_precedes(a: TagView, b: TagView) -> bool {
    a.priority > b.priority || (a.priority == b.priority && name_before(a.name, b.name))
}

/// Each tag in `order` precedes all that follow it.
pub open spec fn in_precedence_order(order: Seq<TagView>) -> bool {
    forall|a: int, b: int| 0 <= a < b < order.len() ==> tag_precedes(order[a], order[b])
}

/// Whether `order` lists the tags whose hooks apply to `p`: exactly the tags
/// that `w` defines and `p` carries, each before all that it precedes. A tag
/// that `p` carries and `w` does not define has no part in it.
pub open spec fn is_hook_order(w: WorkspaceView, p: ProjectView, order: Seq<TagView>) -> bool {
    &&& forall|k: int|
        0 <= k < order.len() ==> w.tags.contains(#[trigger] order[k]) && p.carries(order[k].name)
    &&& forall|i: int|
        0 <= i < w.tags.len() && p.carries((#[trigger] w.tags[i]).name) ==> order.contains(
            w.tags[i],
        )
    &&& in_precedence_order(order)
}

/// The tags whose hooks apply to `p`, in the order in which they run.
pub open spec fn hook_order(w: WorkspaceView, p: ProjectView) -> Seq<TagView> {
    choose|order: Seq<TagView>| is_hook_order(w, p, order)
}

/// The scripts for `kind` of the tags in `tags` that have one, in their
/// order.
pub open spec fn hook_texts(tags: Seq<TagView>, kind: HookKind) -> Seq<Seq<char>>
    decreases tags.len(),
{
    if tags.len() == 0 {
        Seq::empty()
    } else {
        let before = hook_texts(tags.drop_last(), kind);
        match tags.last().hook(kind) {
            Some(text) => before.push(text),
            None => before,
        }
    }
}

/// The scripts that make up the hook of `p` for `kind`: those of its tags in
/// hook order, then its own.
pub open spec fn hook_sources(w: WorkspaceView, p: ProjectView, kind: HookKind) -> Seq<Seq<char>> {
    let from_tags = hook_texts(hook_order(w, p), kind);
    match p.hook(kind) {
        Some(text) => from_tags.push(text),
        None => from_tags,
    }
}

/// `lines` joined by newlines; nothing for no lines.
pub open spec fn join_lines(lines: Seq<Seq<char>>) -> Seq<char>
    decreases lines.len(),
{
    if lines.len() == 0 {
        Seq::empty()
    } else if lines.len() == 1 {
        lines[0]
    } else {
        join_lines(lines.drop_last()) + seq!['\n'] + lines.last()
    }
}

/// The script that runs for `p` on the occasion `kind`.
pub open spec fn effective_hook(w: WorkspaceView, p: ProjectView, kind: HookKind) -> Seq<char> {
    join_lines(hook_sources(w, p, kind))
}

/// Precedence is a strict order, and it decides between any two tags of
/// different names.
pub proof fn lemma_tag_precedes_order(a: TagView, b: TagView, c: TagView)
    ensures
        !tag_precedes(a, a),
        tag_precedes(a, b) ==> !tag_precedes(b, a),
        tag_precedes(a, b) && tag_precedes(b, c) ==> tag_precedes(a, c),
        a.name != b.name ==> tag_precedes(a, b) || tag_precedes(b, a),
{
    lemma_name_order(a.name, b.name, c.name);
    lemma_name_order(b.name, a.name, c.name);
}

proof fn lemma_orders_agree(o1: Seq<TagView>, o2: Seq<TagView>, k: int)
    requires
        in_precedence_order(o1),
        in_precedence_order(o2),
        forall|x: TagView| o1.contains(x) <==> o2.contains(x),
        0 <= k <= o1.len(),
    ensures
        k <= o2.len(),
        forall|j: int| 0 <= j < k ==> o1[j] == o2[j],
    decreases k,
{
    if k > 0 {
        lemma_orders_agree(o1, o2, k - 1);
        let x = o1[k - 1];
        assert(o1.contains(x));
        assert(o2.contains(x));
        let m = choose|m: int| 0 <= m < o2.len() && o2[m] == x;
        lemma_tag_precedes_order(x, x, x);
        if m < k - 1 {
            assert(o1[m] == o2[m]);
            assert(tag_precedes(o1[m], o1[k - 1]));
        } else if m > k - 1 {
            let y = o2[k - 1];
            assert(tag_precedes(y, x));
            lemma_tag_precedes_order(y, x, y);
            assert(o2.contains(y));
            assert(o1.contains(y));
            let n = choose|n: int| 0 <= n < o1.len() && o1[n] == y;
            if n < k - 1 {
                assert(o2[n] == o1[n]);
                assert(tag_precedes(o2[n], o2[k - 1]));
            } else if n > k - 1 {
                assert(tag_precedes(o1[k - 1], o1[n]));
            }
        }
    }
}

/// Two lists in precedence order that hold the same tags are the same list.
pub proof fn lemma_precedence_order_unique(o1: Seq<TagView>, o2: Seq<TagView>)
    requires
        in_precedence_order(o1),
        in_precedence_order(o2),
        forall|x: TagView| o1.contains(x) <==> o2.contains(x),
    ensures
        o1 == o2,
{
    lemma_orders_agree(o1, o2, o1.len() as int);
    lemma_orders_agree(o2, o1, o2.len() as int);
    assert(o1 =~= o2);
}

/// The hook order is determined by which tags are defined and which of them
/// the project carries: workspaces that define the same tags, in whatever
/// order they hold them, and projects that carry the same of these tags, in
/// whatever order they were given them, have the same hook order.
pub proof fn lemma_hook_order_determined(
    w1: WorkspaceView,
    p1: ProjectView,
    o1: Seq<TagView>,
    w2: WorkspaceView,
    p2: ProjectView,
    o2: Seq<TagView>,
)
    requires
        forall|t: TagView| w1.tags.contains(t) <==> w2.tags.contains(t),
        forall|name: Seq<char>| p1.carries(name) <==> p2.carries(name),
        is_hook_order(w1, p1, o1),
        is_hook_order(w2, p2, o2),
    ensures
        o1 == o2,
{
    assert forall|x: TagView| o1.contains(x) implies o2.contains(x) by {
        let k = choose|k: int| 0 <= k < o1.len() && o1[k] == x;
        assert(w1.tags.contains(o1[k]));
        assert(w2.tags.contains(x));
        let i = choose|i: int| 0 <= i < w2.tags.len() && w2.tags[i] == x;
        assert(p2.carries(w2.tags[i].name));
    }
    assert forall|x: TagView| o2.contains(x) implies o1.contains(x) by {
        let k = choose|k: int| 0 <= k < o2.len() && o2[k] == x;
        assert(w2.tags.contains(o2[k]));
        assert(w1.tags.contains(x));
        let i = choose|i: int| 0 <= i < w1.tags.len() && w1.tags[i] == x;
        assert(p1.carries(w1.tags[i].name));
    }
    lemma_precedence_order_unique(o1, o2);
}

/// A hook order, once found, is the hook order.
pub proof fn lemma_hook_order_is(w: WorkspaceView, p: ProjectView, order: Seq<TagView>)
    requires
        is_hook_order(w, p, order),
    ensures
        hook_order(w, p) == order,
{
    lemma_hook_order_determined(w, p, hook_order(w, p), w, p, order);
}

/// Where `tag` goes in `order`: behind the last tag that precedes it.
spec fn place_for(order: Seq<TagView>, tag: TagView) -> int
    decreases order.len(),
{
    if order.len() == 0 {
        0
    } else if tag_precedes(order.last(), tag) {
        order.len() as int
    } else {
        place_for(order.drop_last(), tag)
    }
}

/// The hook order of `p` among the first `n` tags of `w`, built by putting
/// each tag in its place.
spec fn hook_order_among(w: WorkspaceView, p: ProjectView, n: nat) -> Seq<TagView>
    decreases n,
{
    if n == 0 {
        Seq::empty()
    } else {
        let before = hook_order_among(w, p, (n - 1) as nat);
        let tag = w.tags[n - 1];
        if p.carries(tag.name) {
            before.insert(place_for(before, tag), tag)
        } else {
            before
        }
    }
}

proof fn lemma_place_for(order: Seq<TagView>, tag: TagView)
    requires
        in_precedence_order(order),
    ensures
        0 <= place_for(order, tag) <= order.len(),
        forall|k: int| 0 <= k < place_for(order, tag) ==> tag_precedes(order[k], tag),
        place_for(order, tag) < order.len() ==> !tag_precedes(order[place_for(order, tag)], tag),
    decreases order.len(),
{
    if order.len() > 0 {
        if tag_precedes(order.last(), tag) {
            assert forall|k: int| 0 <= k < order.len() implies tag_precedes(order[k], tag) by {
                if k < order.len() - 1 {
                    assert(tag_precedes(order[k], order[order.len() - 1]));
                    lemma_tag_precedes_order(order[k], order.last(), tag);
                }
            }
        } else {
            let shorter = order.drop_last();
            assert(in_precedence_order(shorter)) by {
                assert forall|a: int, b: int| 0 <= a < b < shorter.len() implies tag_precedes(
                    shorter[a],
                    shorter[b],
                ) by {
                    assert(tag_precedes(order[a], order[b]));
                }
            }
            lemma_place_for(shorter, tag);
            let place = place_for(shorter, tag);
            assert forall|k: int| 0 <= k < place implies tag_precedes(order[k], tag) by {
                assert(order[k] == shorter[k]);
            }
            if place < shorter.len() {
                assert(order[place] == shorter[place]);
            }
        }
    }
}

proof fn lemma_hook_order_among(w: WorkspaceView, p: ProjectView, n: nat)
    requires
        w.wf(),
        n <= w.tags.len(),
    ensures
        forall|k: int|
            0 <= k < hook_order_among(w, p, n).len() ==> exists|j: int|
                0 <= j < n && w.tags[j] == #[trigger] hook_order_among(w, p, n)[k] && p.carries(
                    w.tags[j].name,
                ),
        forall|j: int|
            0 <= j < n && p.carries((#[trigger] w.tags[j]).name) ==> hook_order_among(
                w,
                p,
                n,
            ).contains(w.tags[j]),
        in_precedence_order(hook_order_among(w, p, n)),
    decreases n,
{
    if n > 0 {
        let before = hook_order_among(w, p, (n - 1) as nat);
        let after = hook_order_among(w, p, n);
        let tag = w.tags[n - 1];
        lemma_hook_order_among(w, p, (n - 1) as nat);
        if p.carries(tag.name) {
            let pos = place_for(before, tag);
            lemma_place_for(before, tag);
            if pos < before.len() {
                let other = before[pos];
                let j = choose|j: int| 0 <= j < n - 1 && w.tags[j] == other && p.carries(w.tags[j].name);
                assert(w.tag_names()[j] != w.tag_names()[n - 1]);
                lemma_tag_precedes_order(tag, other, tag);
            }
            lemma_insert_keeps_order(before, pos, tag);
            assert forall|k: int| 0 <= k < after.len() implies exists|j: int|
                0 <= j < n && w.tags[j] == #[trigger] after[k] && p.carries(w.tags[j].name) by {
                if k == pos {
                    assert(w.tags[n - 1] == after[k]);
                } else {
                    let x = if k < pos { k } else { k - 1 };
                    assert(after[k] == before[x]);
                    let j = choose|j: int| 0 <= j < n - 1 && w.tags[j] == before[x] && p.carries(w.tags[j].name);
                    assert(w.tags[j] == after[k]);
                }
            }
            assert forall|j: int| 0 <= j < n && p.carries((#[trigger] w.tags[j]).name) implies after.contains(
                w.tags[j],
            ) by {
                if j == n - 1 {
                    assert(after[pos] == w.tags[j]);
                } else {
                    assert(before.contains(w.tags[j]));
                    let k = choose|k: int| 0 <= k < before.len() && before[k] == w.tags[j];
                    if k < pos {
                        assert(after[k] == w.tags[j]);
                    } else {
                        assert(after[k + 1] == w.tags[j]);
                    }
                }
            }
        } else {
            assert forall|k: int| 0 <= k < after.len() implies exists|j: int|
                0 <= j < n && w.tags[j] == #[trigger] after[k] && p.carries(w.tags[j].name) by {
                let j = choose|j: int| 0 <= j < n - 1 && w.tags[j] == before[k] && p.carries(w.tags[j].name);
                assert(w.tags[j] == after[k]);
            }
        }
    }
}

/// Every project has a hook order in every well-formed workspace.
pub proof fn lemma_hook_order_exists(w: WorkspaceView, p: ProjectView)
    requires
        w.wf(),
    ensures
        is_hook_order(w, p, hook_order(w, p)),
{
    let order = hook_order_among(w, p, w.tags.len());
    lemma_hook_order_among(w, p, w.tags.len());
    assert forall|k: int| 0 <= k < order.len() implies w.tags.contains(#[trigger] order[k])
        && p.carries(order[k].name) by {
        let j = choose|j: int| 0 <= j < w.tags.len() && w.tags[j] == order[k] && p.carries(w.tags[j].name);
        assert(w.tags[j] == order[k]);
    }
    assert(is_hook_order(w, p, order));
}

/// The composed script is determined by the model, and by no more of it
/// than this: the same tag definitions, the same tags carried and the same
/// script of the project's own give the same script, in whatever order the
/// workspace holds the definitions and the project was given its tags.
pub proof fn lemma_effective_hook_determined(
    w1: WorkspaceView,
    p1: ProjectView,
    w2: WorkspaceView,
    p2: ProjectView,
    kind: HookKind,
)
    requires
        w1.wf(),
        w2.wf(),
        forall|t: TagView| w1.tags.contains(t) <==> w2.tags.contains(t),
        forall|name: Seq<char>| p1.carries(name) <==> p2.carries(name),
        p1.hook(kind) == p2.hook(kind),
    ensures
        hook_order(w1, p1) == hook_order(w2, p2),
        effective_hook(w1, p1, kind) == effective_hook(w2, p2, kind),
{
    lemma_hook_order_exists(w1, p1);
    lemma_hook_order_exists(w2, p2);
    lemma_hook_order_determined(w1, p1, hook_order(w1, p1), w2, p2, hook_order(w2, p2));
}

/// The script of each tag of `tags` that has one for `kind` is among the
/// scripts collected from `tags`.
proof fn lemma_hook_texts_hold(tags: Seq<TagView>, kind: HookKind, k: int)
    requires
        0 <= k < tags.len(),
        tags[k].hook(kind) is Some,
    ensures
        hook_texts(tags, kind).contains(tags[k].hook(kind).unwrap()),
    decreases tags.len(),
{
    let text = tags[k].hook(kind).unwrap();
    let all = hook_texts(tags, kind);
    let before = hook_texts(tags.drop_last(), kind);
    if k == tags.len() - 1 {
        assert(all[all.len() - 1] == text);
    } else {
        lemma_hook_texts_hold(tags.drop_last(), kind, k);
        let at = choose|at: int| 0 <= at < before.len() && before[at] == text;
        assert(all[at] == text);
    }
}

/// No hook is dropped: the script of every tag that the workspace defines
/// and the project carries is part of what is composed, and so is the
/// project's own script, which comes last.
pub proof fn lemma_no_hook_dropped(w: WorkspaceView, p: ProjectView, kind: HookKind)
    requires
        w.wf(),
    ensures
        forall|i: int|
            0 <= i < w.tags.len() && p.carries((#[trigger] w.tags[i]).name) && w.tags[i].hook(
                kind,
            ) is Some ==> hook_sources(w, p, kind).contains(w.tags[i].hook(kind).unwrap()),
        p.hook(kind) is Some ==> hook_sources(w, p, kind).len() > 0 && hook_sources(
            w,
            p,
            kind,
        ).last() == p.hook(kind).unwrap(),
{
    lemma_hook_order_exists(w, p);
    let order = hook_order(w, p);
    let from_tags = hook_texts(order, kind);
    let sources = hook_sources(w, p, kind);
    assert forall|i: int|
        0 <= i < w.tags.len() && p.carries((#[trigger] w.tags[i]).name) && w.tags[i].hook(
            kind,
        ) is Some implies sources.contains(w.tags[i].hook(kind).unwrap()) by {
        let text = w.tags[i].hook(kind).unwrap();
        assert(order.contains(w.tags[i]));
        let k = choose|k: int| 0 <= k < order.len() && order[k] == w.tags[i];
        lemma_hook_texts_hold(order, kind, k);
        let at = choose|at: int| 0 <= at < from_tags.len() && from_tags[at] == text;
        assert(sources[at] == text);
    }
}

/// The views of the tags in `tags`.
pub open spec fn tag_views(tags: Seq<&Tag>) -> Seq<TagView> {
    Seq::new(tags.len(), |k: int| tags[k]@)
}

/// Whether the hooks of `a` run before those of `b`.
pub fn precedes(a: &Tag, b: &Tag) -> (r: bool)
    ensures
        r == tag_precedes(a@, b@),
{
    a.priority > b.priority || (a.priority == b.priority && comes_before(
        a.name.as_str(),
        b.name.as_str(),
    ))
}

/// A tag put where all before it precede it and it precedes the next one
/// keeps the list in precedence order.
proof fn lemma_insert_keeps_order(order: Seq<TagView>, pos: int, tag: TagView)
    requires
        in_precedence_order(order),
        0 <= pos <= order.len(),
        forall|k: int| 0 <= k < pos ==> tag_precedes(order[k], tag),
        pos < order.len() ==> tag_precedes(tag, order[pos]),
    ensures
        in_precedence_order(order.insert(pos, tag)),
{
    let longer = order.insert(pos, tag);
    assert forall|a: int, b: int| 0 <= a < b < longer.len() implies tag_precedes(
        longer[a],
        longer[b],
    ) by {
        if b == pos {
            assert(longer[a] == order[a]);
        } else if a == pos {
            assert(longer[b] == order[b - 1]);
            if b - 1 > pos {
                assert(tag_precedes(order[pos], order[b - 1]));
                lemma_tag_precedes_order(tag, order[pos], order[b - 1]);
            }
        } else {
            let x = if a < pos { a } else { a - 1 };
            let y = if b < pos { b } else { b - 1 };
            assert(longer[a] == order[x]);
            assert(longer[b] == order[y]);
            assert(tag_precedes(order[x], order[y]));
        }
    }
}

/// The tag's script for `kind`.
pub fn tag_hook(tag: &Tag, kind: HookKind) -> (r: &Option<String>)
    ensures
        text_of(*r) == tag@.hook(kind),
{
    match kind {
        HookKind::Clone => &tag.after_clone,
        HookKind::Workon => &tag.after_workon,
    }
}

/// The project's own script for `kind`.
pub fn project_hook(project: &Project, kind: HookKind) -> (r: &Option<String>)
    ensures
        text_of(*r) == project@.hook(kind),
{
    match kind {
        HookKind::Clone => project.after_clone(),
        HookKind::Workon => project.after_workon(),
    }
}

/// Appends `text` to `script` as a line of its own.
fn push_line(script: &mut String, started: bool, text: &str)
    ensures
        final(script)@ == if started {
            old(script)@ + seq!['\n'] + text@
        } else {
            old(script)@ + text@
        },
{
    if started {
        proof {
            reveal_strlit("\n");
        }
        script.append("\n");
        assert("\n"@ =~= seq!['\n']);
    }
    script.append(text);
}

impl Workspace {
    /// The tags whose hooks apply to `project`, in the order in which they
    /// run: the tags that the workspace defines and the project carries, by
    /// descending priority and, within one priority, by ascending name.
    pub fn hook_order<'a>(&'a self, project: &Project) -> (order: Vec<&'a Tag>)
        requires
            self@.wf(),
        ensures
            is_hook_order(self@, project@, tag_views(order@)),
            tag_views(order@) == hook_order(self@, project@),
    {
        let tags = self.tags();
        let mut order: Vec<&Tag> = Vec::new();
        let ghost mut places: Seq<int> = Seq::empty();
        let mut i: usize = 0;
        while i < tags.len()
            invariant
                i <= tags@.len(),
                self@.wf(),
                tags@.len() == self@.tags.len(),
                forall|j: int| 0 <= j < tags@.len() ==> (#[trigger] tags@[j])@ == self@.tags[j],
                places.len() == order@.len(),
                forall|k: int|
                    0 <= k < order@.len() ==> 0 <= #[trigger] places[k] < i && order@[k]@
                        == self@.tags[places[k]] && project@.carries(self@.tags[places[k]].name),
                forall|j: int|
                    0 <= j < i && project@.carries((#[trigger] self@.tags[j]).name) ==> tag_views(
                        order@,
                    ).contains(self@.tags[j]),
                in_precedence_order(tag_views(order@)),
            decreases tags@.len() - i,
        {
            let tag = &tags[i];
            assert(tag@ == self@.tags[i as int]);
            if project.carries(tag.name.as_str()) {
                let mut pos: usize = 0;
                while pos < order.len() && precedes(order[pos], tag)
                    invariant
                        pos <= order@.len(),
                        forall|k: int| 0 <= k < pos ==> tag_precedes(order@[k]@, tag@),
                    decreases order@.len() - pos,
                {
                    pos += 1;
                }
                let ghost before = tag_views(order@);
                proof {
                    assert forall|k: int| 0 <= k < pos implies tag_precedes(before[k], tag@) by {
                        assert(before[k] == order@[k]@);
                    }
                    if pos < order@.len() {
                        let other = before[pos as int];
                        assert(other == order@[pos as int]@);
                        let j = places[pos as int];
                        assert(other == self@.tags[j]);
                        assert(self@.tag_names()[j] != self@.tag_names()[i as int]);
                        lemma_tag_precedes_order(tag@, other, tag@);
                    }
                    lemma_insert_keeps_order(before, pos as int, tag@);
                }
                order.insert(pos, tag);
                proof {
                    places = places.insert(pos as int, i as int);
                    let after = tag_views(order@);
                    assert(after =~= before.insert(pos as int, tag@));
                    assert forall|j: int|
                        0 <= j < i + 1 && project@.carries(
                            (#[trigger] self@.tags[j]).name,
                        ) implies after.contains(self@.tags[j]) by {
                        if j == i {
                            assert(after[pos as int] == self@.tags[j]);
                        } else {
                            assert(before.contains(self@.tags[j]));
                            let k = choose|k: int| 0 <= k < before.len() && before[k] == self@.tags[j];
                            if k < pos {
                                assert(after[k] == self@.tags[j]);
                            } else {
                                assert(after[k + 1] == self@.tags[j]);
                            }
                        }
                    }
                }
            }
            i += 1;
        }
        proof {
            let views = tag_views(order@);
            assert forall|k: int| 0 <= k < views.len() implies self@.tags.contains(
                #[trigger] views[k],
            ) && project@.carries(views[k].name) by {
                assert(views[k] == self@.tags[places[k]]);
            }
            lemma_hook_order_is(self@, project@, views);
        }
        order
    }

    /// The script that runs for `project` on the occasion `kind`: the
    /// scripts of its tags in hook order, then its own, one per line. Empty
    /// if none applies.
    pub fn effective_hook(&self, project: &Project, kind: HookKind) -> (script: String)
        requires
            self@.wf(),
        ensures
            script@ == effective_hook(self@, project@, kind),
    {
        let order = self.hook_order(project);
        let ghost views = tag_views(order@);
        let mut script = String::new();
        let mut started = false;
        let ghost mut lines: Seq<Seq<char>> = Seq::empty();
        let mut k: usize = 0;
        assert(views.take(0) =~= Seq::empty());
        while k < order.len()
            invariant
                k <= order@.len(),
                views == tag_views(order@),
                lines == hook_texts(views.take(k as int), kind),
                script@ == join_lines(lines),
                started == (lines.len() > 0),
            decreases order@.len() - k,
        {
            proof {
                assert(views.take(k + 1).drop_last() =~= views.take(k as int));
                assert(views.take(k + 1).last() == order@[k as int]@);
            }
            match tag_hook(order[k], kind) {
                Some(text) => {
                    push_line(&mut script, started, text.as_str());
                    proof {
                        lemma_join_push(lines, text@);
                        lines = lines.push(text@);
                    }
                    started = true;
                },
                None => {},
            }
            k += 1;
        }
        assert(views.take(order@.len() as int) =~= views);
        match project_hook(project, kind) {
            Some(text) => {
                push_line(&mut script, started, text.as_str());
                proof {
                    lemma_join_push(lines, text@);
                }
            },
            None => {},
        }
        script
    }
}

/// Joining one line more puts a newline and the line behind what was joined
/// before, and the line alone where nothing was.
pub proof fn lemma_join_push(lines: Seq<Seq<char>>, line: Seq<char>)
    ensures
        join_lines(lines.push(line)) == if lines.len() > 0 {
            join_lines(lines) + seq!['\n'] + line
        } else {
            line
        },
{
    let longer = lines.push(line);
    assert(longer.drop_last() =~= lines);
    assert(longer.last() == line);
}

} // verus!
