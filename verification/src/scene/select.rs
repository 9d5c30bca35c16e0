//! What a selection holds, and the groups a DM chooses among.

use vstd::prelude::*;

use crate::scene::draw::{held_at, under, ink_under};
use crate::scene::edit::{group_of, put_group, with_children};
use crate::scene::model::{
    Group, GroupView, Node, NodeId, NodeView, ROOT_ID, Shown, id_of, lemma_view_nodes,
    lemma_view_nodes_ext, nodes_view, view_node, view_nodes,
};
use crate::scene::grouping::group_down;
use crate::scene::tree::{chain, find_at, highest_at};
use crate::scene::{Scene, ancestors, find, fuel_of};

verus! {

broadcast use lemma_view_nodes;

/// Whether a list of ids holds this one.
pub(crate) fn holds(ids: &[NodeId], id: NodeId) -> (r: bool)
    ensures
        r == ids@.contains(id),
{
    let mut i: usize = 0;
    while i < ids.len()
        invariant
            i <= ids@.len(),
            forall|j: int| 0 <= j < i ==> ids@[j] != id,
        decreases ids.len() - i,
    {
        if ids[i] == id {
            proof {
                assert(ids@[i as int] == id);
            }
            return true;
        }
        i += 1;
    }
    false
}

/// Whether a group above the node of this id is in the selection.
pub open spec fn held_by(root: GroupView, ids: Seq<NodeId>, id: NodeId) -> bool {
    exists|j: int| 0 <= j < chain(root, id, fuel_of(root)).len() && ids.contains(#[trigger] chain(root, id, fuel_of(root))[j])
}

/// The first `n` ids of a selection with no id twice and none a selected
/// group holds, in the order the selection names them.
pub open spec fn normal_upto(root: GroupView, ids: Seq<NodeId>, n: int) -> Seq<NodeId>
    decreases n,
{
    if n <= 0 || n > ids.len() {
        Seq::empty()
    } else {
        let kept = normal_upto(root, ids, n - 1);
        let id = ids[n - 1];
        if held_by(root, ids, id) || kept.contains(id) {
            kept
        } else {
            kept.push(id)
        }
    }
}

/// The selection with nothing in it twice, and no node a group in it holds.
///
/// A group already carries its children, so a selection of a group and one
/// of its children is a selection of the group.
pub fn normalize(scene: &Scene, ids: &[NodeId]) -> (r: Vec<NodeId>)
    ensures
        r@ == normal_upto(scene@, ids@, ids@.len() as int),
{
    let mut kept: Vec<NodeId> = Vec::new();
    let mut i: usize = 0;
    while i < ids.len()
        invariant
            i <= ids@.len(),
            kept@ == normal_upto(scene@, ids@, i as int),
        decreases ids.len() - i,
    {
        let id = ids[i];
        let above = ancestors(scene, id);
        let ghost walk = chain(scene@, id, fuel_of(scene@));
        let mut held = false;
        let mut k: usize = 0;
        while k < above.len()
            invariant
                k <= above@.len(),
                above@ == walk,
                held == exists|j: int| 0 <= j < k && ids@.contains(#[trigger] walk[j]),
            decreases above.len() - k,
        {
            if holds(ids, above[k]) {
                held = true;
            }
            proof {
                if held {
                    if ids@.contains(walk[k as int]) {
                        assert(0 <= k < k + 1 && ids@.contains(walk[k as int]));
                    }
                }
            }
            k += 1;
        }
        assert(held == held_by(scene@, ids@, id));
        if !held && !holds(kept.as_slice(), id) {
            kept.push(id);
        }
        i += 1;
    }
    kept
}

/// Whether the tree holds a drawing of this id.
pub fn has_stroke(scene: &Scene, id: NodeId) -> (r: bool)
    ensures
        r == (find_at(scene@.children, id, 0) matches Some(NodeView::Stroke(_))),
{
    match find(scene, id) {
        Some(Node::Stroke(_)) => true,
        _ => false,
    }
}

/// Every map a node holds: the map itself, or all under a group.
pub open spec fn assets_in(root: GroupView, id: NodeId) -> Seq<NodeId> {
    match find_at(root.children, id, 0) {
        Some(NodeView::Asset(leaf)) => seq![leaf.id],
        Some(NodeView::Group(g)) => held_at(g.children, false, 0),
        _ => Seq::empty(),
    }
}

/// Every drawing a node holds: the drawing itself, or all under a group.
pub open spec fn strokes_in(root: GroupView, id: NodeId) -> Seq<NodeId> {
    match find_at(root.children, id, 0) {
        Some(NodeView::Stroke(leaf)) => seq![leaf.id],
        Some(NodeView::Group(g)) => held_at(g.children, true, 0),
        _ => Seq::empty(),
    }
}

/// Every map a node holds: the map itself, or all under a group.
pub fn assets_of(scene: &Scene, id: NodeId) -> (r: Vec<NodeId>)
    ensures
        r@ == assets_in(scene@, id),
{
    match find(scene, id) {
        Some(Node::Asset(leaf)) => {
            let mut out = Vec::new();
            out.push(leaf.id);
            proof {
                assert(out@ =~= seq![leaf.id]);
            }
            out
        },
        Some(Node::Group(group)) => under(group),
        _ => Vec::new(),
    }
}

/// Every drawing a node holds: the drawing itself, or all under a group.
///
/// A drag carries the drawings of a selection as it carries its maps, so
/// a group of drawings moves with one hand.
pub fn strokes_of(scene: &Scene, id: NodeId) -> (r: Vec<NodeId>)
    ensures
        r@ == strokes_in(scene@, id),
{
    match find(scene, id) {
        Some(Node::Stroke(leaf)) => {
            let mut out = Vec::new();
            out.push(leaf.id);
            proof {
                assert(out@ =~= seq![leaf.id]);
            }
            out
        },
        Some(Node::Group(group)) => ink_under(group),
        _ => Vec::new(),
    }
}

/// The groups of `s` from place `k` on that draw for the DM, each before
/// the groups inside it. A group the DM screen hides hides its own groups.
pub open spec fn dm_groups_at(s: Seq<NodeView>, k: int) -> Seq<GroupView>
    decreases s, s.len() - k,
{
    if k < 0 || k >= s.len() {
        Seq::empty()
    } else {
        let here = match s[k] {
            NodeView::Group(g) => if g.shown.dm {
                seq![g] + dm_groups_at(g.children, 0)
            } else {
                Seq::empty()
            },
            _ => Seq::empty(),
        };
        here + dm_groups_at(s, k + 1)
    }
}

/// Every group in the scene that draws for the DM, the root last.
pub open spec fn dm_groups(root: GroupView) -> Seq<GroupView> {
    dm_groups_at(root.children, 0).push(root)
}

fn collect_groups<'a>(nodes: &'a Vec<Node>, found: &mut Vec<&'a Group>)
    ensures
        final(found)@.map_values(|g: &Group| g@) == old(found)@.map_values(|g: &Group| g@) + dm_groups_at(nodes_view(nodes), 0),
    decreases nodes,
{
    let ghost s = nodes_view(nodes);
    let ghost start = found@.map_values(|g: &Group| g@);
    let mut i: usize = 0;
    while i < nodes.len()
        invariant
            i <= nodes.len() == s.len(),
            s == nodes_view(nodes),
            start + dm_groups_at(s, 0) == found@.map_values(|g: &Group| g@) + dm_groups_at(s, i as int),
        decreases nodes.len() - i,
    {
        let ghost before = found@.map_values(|g: &Group| g@);
        match &nodes[i] {
            Node::Group(group) => {
                if group.shown.dm {
                    found.push(group);
                    proof {
                        assert(found@.map_values(|g: &Group| g@) =~= before.push(group@));
                    }
                    collect_groups(&group.children, found);
                }
            },
            _ => {},
        }
        proof {
            let now = found@.map_values(|g: &Group| g@);
            let here = now.subrange(before.len() as int, now.len() as int);
            assert(now =~= before + here);
            assert(dm_groups_at(s, i as int) == here + dm_groups_at(s, i + 1));
            assert(before + (here + dm_groups_at(s, i + 1)) =~= now + dm_groups_at(s, i + 1));
        }
        i += 1;
    }
    proof {
        assert(found@.map_values(|g: &Group| g@) + dm_groups_at(s, i as int) =~= found@.map_values(|g: &Group| g@));
    }
}

/// Every group in the scene that draws for the DM, with the root last.
///
/// The root has no box around it, so a caller that draws boxes skips it.
pub fn groups(scene: &Scene) -> (r: Vec<&Group>)
    ensures
        r@.map_values(|g: &Group| g@) == dm_groups(scene@),
{
    let mut found: Vec<&Group> = Vec::new();
    proof {
        assert(found@.map_values(|g: &Group| g@) =~= Seq::<GroupView>::empty());
    }
    collect_groups(&scene.root.children, &mut found);
    let ghost before = found@.map_values(|g: &Group| g@);
    found.push(&scene.root);
    proof {
        assert(before =~= Seq::<GroupView>::empty() + dm_groups_at(scene@.children, 0));
        assert(found@.map_values(|g: &Group| g@) =~= before.push(scene@));
    }
    found
}

/// The first group of a list that new drawings join.
pub open spec fn first_ink(gs: Seq<GroupView>, k: int) -> Option<NodeId>
    decreases gs.len() - k,
{
    if k < 0 || k >= gs.len() {
        None
    } else if gs[k].ink {
        Some(gs[k].id)
    } else {
        first_ink(gs, k + 1)
    }
}

fn first_ink_of(all: &Vec<&Group>) -> (r: Option<NodeId>)
    ensures
        r == first_ink(all@.map_values(|g: &Group| g@), 0),
{
    let ghost gs = all@.map_values(|g: &Group| g@);
    let mut k: usize = 0;
    while k < all.len()
        invariant
            k <= all@.len(),
            gs == all@.map_values(|g: &Group| g@),
            first_ink(gs, 0) == first_ink(gs, k as int),
        decreases all.len() - k,
    {
        assert(gs[k as int] == all@[k as int]@);
        if all[k].ink {
            return Some(all[k].id);
        }
        k += 1;
    }
    None
}

/// A new group that new drawings join, shown on both screens.
pub open spec fn ink_group_view(id: NodeId, name: Seq<char>) -> GroupView {
    GroupView { id, name, shown: Shown { dm: true, tv: true }, children: Seq::empty(), ink: true }
}

/// The group a new stroke joins, made when there is none.
///
/// The strokes keep to a group of their own, so a hundred pen marks do not
/// flood the objects list. A new one sits on top of the root.
pub fn ink_group(scene: &mut Scene, name: String) -> (r: NodeId)
    requires
        highest_at(old(scene)@.children, 0, ROOT_ID as nat) < u64::MAX,
    ensures
        first_ink(dm_groups(old(scene)@), 0) matches Some(found) ==> r == found && final(scene)@ == old(scene)@,
        first_ink(dm_groups(old(scene)@), 0) is None ==> {
            &&& r == highest_at(old(scene)@.children, 0, ROOT_ID as nat) + 1
            &&& final(scene)@ == with_children(
                old(scene)@,
                old(scene)@.children.push(NodeView::Group(ink_group_view(r, name@))),
            )
        },
{
    let found = first_ink_of(&groups(scene));
    if let Some(id) = found {
        return id;
    }
    let id = scene.next_id();
    let mut group = Group::new(id, name);
    group.ink = true;
    let ghost was = scene@;
    let ghost old_children = scene.root.children@;
    let ghost made = group@;
    scene.root.children.push(Node::Group(group));
    proof {
        assert(was.children == view_nodes(old_children));
        assert(made =~= ink_group_view(id, name@));
        lemma_view_nodes_ext(scene.root.children@, was.children.push(NodeView::Group(made)));
        assert(scene@ =~= with_children(was, was.children.push(NodeView::Group(made))));
    }
    id
}

/// How deep a group sits below the root, one step further down: a count
/// that stops at the largest `usize`.
pub open spec fn deeper(depth: usize) -> usize {
    if depth < usize::MAX { (depth + 1) as usize } else { depth }
}

/// Every group of `s` from place `k` on, each before the groups inside
/// it, with its name and how deep it sits.
pub open spec fn names_at(s: Seq<NodeView>, depth: usize, k: int) -> Seq<(NodeId, Seq<char>, usize)>
    decreases s, s.len() - k,
{
    if k < 0 || k >= s.len() {
        Seq::empty()
    } else {
        let here = match s[k] {
            NodeView::Group(g) => seq![(g.id, g.name, depth)] + names_at(g.children, deeper(depth), 0),
            _ => Seq::empty(),
        };
        here + names_at(s, depth, k + 1)
    }
}

/// The names of a list of groups, as mathematical values.
pub open spec fn names_view(v: Seq<(NodeId, String, usize)>) -> Seq<(NodeId, Seq<char>, usize)> {
    v.map_values(|e: (NodeId, String, usize)| (e.0, e.1@, e.2))
}

fn name_groups(nodes: &Vec<Node>, depth: usize, found: &mut Vec<(NodeId, String, usize)>)
    ensures
        names_view(final(found)@) == names_view(old(found)@) + names_at(nodes_view(nodes), depth, 0),
    decreases nodes,
{
    let ghost s = nodes_view(nodes);
    let ghost start = names_view(found@);
    let mut i: usize = 0;
    while i < nodes.len()
        invariant
            i <= nodes.len() == s.len(),
            s == nodes_view(nodes),
            start + names_at(s, depth, 0) == names_view(found@) + names_at(s, depth, i as int),
        decreases nodes.len() - i,
    {
        let ghost before = names_view(found@);
        match &nodes[i] {
            Node::Group(group) => {
                found.push((group.id, group.name.clone(), depth));
                proof {
                    assert(names_view(found@) =~= before.push((group@.id, group@.name, depth)));
                }
                let next = if depth < usize::MAX { depth + 1 } else { depth };
                name_groups(&group.children, next, found);
            },
            _ => {},
        }
        proof {
            let now = names_view(found@);
            let here = now.subrange(before.len() as int, now.len() as int);
            assert(now =~= before + here);
            assert(names_at(s, depth, i as int) == here + names_at(s, depth, i + 1));
            assert(before + (here + names_at(s, depth, i + 1)) =~= now + names_at(s, depth, i + 1));
        }
        i += 1;
    }
    proof {
        assert(names_view(found@) + names_at(s, depth, i as int) =~= names_view(found@));
    }
}

/// Every group in the scene, the root first, each with how deep it sits.
///
/// A list of groups for the DM to choose from reads better with the depth.
pub fn group_names(scene: &Scene) -> (r: Vec<(NodeId, String, usize)>)
    ensures
        names_view(r@) == seq![(ROOT_ID, scene@.name, 0usize)] + names_at(scene@.children, 1, 0),
{
    let mut found: Vec<(NodeId, String, usize)> = Vec::new();
    found.push((ROOT_ID, scene.root.name.clone(), 0));
    proof {
        assert(names_view(found@) =~= seq![(ROOT_ID, scene@.name, 0usize)]);
    }
    name_groups(&scene.root.children, 1, &mut found);
    found
}

/// What the list holds from place `k` of `s` on, it holds from any earlier
/// place too.
proof fn lemma_names_from_earlier(s: Seq<NodeView>, depth: usize, i: int, k: int)
    requires
        0 <= i <= k,
    ensures
        forall|x: (NodeId, Seq<char>, usize)| names_at(s, depth, k).contains(x) ==> names_at(s, depth, i).contains(x),
    decreases k - i,
{
    if i < k && k < s.len() {
        lemma_names_from_earlier(s, depth, i + 1, k);
        let here = match s[i] {
            NodeView::Group(g) => seq![(g.id, g.name, depth)] + names_at(g.children, deeper(depth), 0),
            _ => Seq::empty(),
        };
        assert(names_at(s, depth, i) == here + names_at(s, depth, i + 1));
        assert forall|x: (NodeId, Seq<char>, usize)| names_at(s, depth, i + 1).contains(x) implies names_at(
            s,
            depth,
            i,
        ).contains(x) by {
            let t = names_at(s, depth, i + 1);
            let j = choose|j: int| 0 <= j < t.len() && t[j] == x;
            assert(names_at(s, depth, i)[here.len() + j] == x);
        }
    }
}

/// A group that a path of places leads to from `g`, one step or more
/// down, stands in the list of the groups in `g` with its name, and with
/// the depth of the first step plus one for each step after it.
proof fn lemma_listed_at_depth(g: GroupView, depth: usize, path: Seq<usize>)
    requires
        path.len() >= 1,
        group_down(g, path) is Some,
        depth + path.len() - 1 <= usize::MAX,
    ensures
        ({
            let h = group_down(g, path)->0;
            names_at(g.children, depth, 0).contains((h.id, h.name, (depth + path.len() - 1) as usize))
        }),
    decreases path.len(),
{
    let h = group_down(g, path)->0;
    let s = g.children;
    let k = path[0] as int;
    let c = match s[k] {
        NodeView::Group(c) => c,
        _ => g,
    };
    let rest = path.drop_first();
    let inside = names_at(c.children, deeper(depth), 0);
    let here = seq![(c.id, c.name, depth)] + inside;
    assert(names_at(s, depth, k) == here + names_at(s, depth, k + 1));
    lemma_names_from_earlier(s, depth, 0, k);
    if path.len() == 1 {
        assert(names_at(s, depth, k)[0] == (h.id, h.name, depth));
    } else {
        lemma_listed_at_depth(c, deeper(depth), rest);
        let e = (h.id, h.name, (depth + path.len() - 1) as usize);
        let j = choose|j: int| 0 <= j < inside.len() && inside[j] == e;
        assert(names_at(s, depth, k)[1 + j] == e);
    }
}

/// Every group of the scene below the root stands in the list with the
/// number of steps down that lead to it from the root: one for a group
/// the root holds, one more for each group around it.
pub proof fn lemma_group_names_depth(root: GroupView, path: Seq<usize>)
    requires
        path.len() >= 1,
        path.len() <= usize::MAX,
        group_down(root, path) is Some,
    ensures
        ({
            let h = group_down(root, path)->0;
            (seq![(ROOT_ID, root.name, 0usize)] + names_at(root.children, 1, 0)).contains(
                (h.id, h.name, path.len() as usize),
            )
        }),
{
    let h = group_down(root, path)->0;
    lemma_listed_at_depth(root, 1, path);
    let list = names_at(root.children, 1, 0);
    let e = (h.id, h.name, path.len() as usize);
    let j = choose|j: int| 0 <= j < list.len() && list[j] == e;
    assert((seq![(ROOT_ID, root.name, 0usize)] + list)[1 + j] == e);
}

/// Whether every list of nodes in `s`, `s` and those of the groups in it
/// at any depth, holds no more nodes than a `usize` counts.
pub open spec fn lists_fit(s: Seq<NodeView>) -> bool
    decreases s,
{
    &&& s.len() <= usize::MAX
    &&& forall|k: int| 0 <= k < s.len() ==> match #[trigger] s[k] {
        NodeView::Group(c) => lists_fit(c.children),
        _ => true,
    }
}

/// A count of steps, held in a `usize`: the largest `usize` for a count
/// past it.
pub open spec fn capped(n: int) -> usize {
    if n <= usize::MAX { n as usize } else { usize::MAX }
}

/// Every entry of the list of the groups in `g` from place `k` on names a
/// group that a path of places leads to from `g`, its first step at `k` or
/// after, with the depth of the first step plus one for each step after
/// it, held in a `usize`.
proof fn lemma_listed_only_reached(g: GroupView, depth: usize, k: int)
    requires
        0 <= k,
        lists_fit(g.children),
    ensures
        forall|x: (NodeId, Seq<char>, usize)| #[trigger] names_at(g.children, depth, k).contains(x) ==> exists|path: Seq<usize>| {
            &&& path.len() >= 1
            &&& path[0] >= k
            &&& #[trigger] group_down(g, path) matches Some(h)
            &&& x == (h.id, h.name, capped(depth + path.len() - 1))
        },
    decreases g.children, g.children.len() - k,
{
    let s = g.children;
    if k < s.len() {
        lemma_listed_only_reached(g, depth, k + 1);
        let rest = names_at(s, depth, k + 1);
        let here = match s[k] {
            NodeView::Group(c) => seq![(c.id, c.name, depth)] + names_at(c.children, deeper(depth), 0),
            _ => Seq::empty(),
        };
        assert(names_at(s, depth, k) == here + rest);
        match s[k] {
            NodeView::Group(c) => {
                lemma_listed_only_reached(c, deeper(depth), 0);
            },
            _ => {},
        }
        assert forall|x: (NodeId, Seq<char>, usize)| #[trigger] names_at(s, depth, k).contains(x) implies exists|path: Seq<usize>| {
            &&& path.len() >= 1
            &&& path[0] >= k
            &&& #[trigger] group_down(g, path) matches Some(h)
            &&& x == (h.id, h.name, capped(depth + path.len() - 1))
        } by {
            let t = names_at(s, depth, k);
            let i = choose|i: int| 0 <= i < t.len() && t[i] == x;
            if i >= here.len() {
                assert(rest[i - here.len()] == x);
                assert(rest.contains(x));
            } else {
                match s[k] {
                    NodeView::Group(c) => {
                        let first = seq![k as usize];
                        assert(first[0] as int == k);
                        assert(first.drop_first() =~= Seq::<usize>::empty());
                        assert(group_down(g, first) == group_down(c, Seq::<usize>::empty()));
                        if i == 0 {
                            assert(x == (c.id, c.name, depth));
                            assert(capped(depth + first.len() - 1) == depth);
                        } else {
                            let inside = names_at(c.children, deeper(depth), 0);
                            assert(inside[i - 1] == x);
                            assert(inside.contains(x));
                            let p = choose|p: Seq<usize>| {
                                &&& p.len() >= 1
                                &&& p[0] >= 0
                                &&& #[trigger] group_down(c, p) matches Some(h)
                                &&& x == (h.id, h.name, capped(deeper(depth) + p.len() - 1))
                            };
                            let path = first + p;
                            assert(path.drop_first() =~= p);
                            assert(group_down(g, path) == group_down(c, p));
                            assert(capped(deeper(depth) + p.len() - 1) == capped(depth + path.len() - 1));
                        }
                    },
                    _ => {},
                }
            }
        }
    }
}

/// Every entry of the list after the root names a group that a path of
/// places leads to from the root, with its name and the number of steps
/// of that path, held in a `usize`: the list holds nothing but the groups
/// of the scene at their depths. This holds of a scene whose lists each
/// fit in memory.
pub proof fn lemma_group_names_only_groups(root: GroupView)
    requires
        lists_fit(root.children),
    ensures
        forall|x: (NodeId, Seq<char>, usize)| #[trigger] names_at(root.children, 1, 0).contains(x) ==> exists|path: Seq<usize>| {
            &&& path.len() >= 1
            &&& #[trigger] group_down(root, path) matches Some(h)
            &&& x == (h.id, h.name, capped(path.len() as int))
        },
{
    lemma_listed_only_reached(root, 1, 0);
    assert forall|x: (NodeId, Seq<char>, usize)| #[trigger] names_at(root.children, 1, 0).contains(x) implies exists|path: Seq<usize>| {
        &&& path.len() >= 1
        &&& #[trigger] group_down(root, path) matches Some(h)
        &&& x == (h.id, h.name, capped(path.len() as int))
    } by {
        let p = choose|p: Seq<usize>| {
            &&& p.len() >= 1
            &&& p[0] >= 0
            &&& #[trigger] group_down(root, p) matches Some(h)
            &&& x == (h.id, h.name, capped(1 + p.len() - 1))
        };
        assert(capped(1 + p.len() - 1) == capped(p.len() as int));
    }
}

/// The list of the groups of `s` from an earlier place `i` on is some
/// entries, then the list from place `k` on.
proof fn lemma_names_suffix(s: Seq<NodeView>, depth: usize, i: int, k: int) -> (pre: Seq<(NodeId, Seq<char>, usize)>)
    requires
        0 <= i <= k <= s.len(),
    ensures
        names_at(s, depth, i) == pre + names_at(s, depth, k),
    decreases k - i,
{
    if i == k {
        assert(names_at(s, depth, i) =~= Seq::<(NodeId, Seq<char>, usize)>::empty() + names_at(s, depth, k));
        Seq::empty()
    } else {
        let rest = lemma_names_suffix(s, depth, i + 1, k);
        let here = match s[i] {
            NodeView::Group(g) => seq![(g.id, g.name, depth)] + names_at(g.children, deeper(depth), 0),
            _ => Seq::empty(),
        };
        assert(names_at(s, depth, i) == here + names_at(s, depth, i + 1));
        assert(names_at(s, depth, i) =~= (here + rest) + names_at(s, depth, k));
        here + rest
    }
}

/// In the list of the groups in `g`, a group that a path leads to comes
/// before each group inside it, each at its depth.
proof fn lemma_listed_before_inside(g: GroupView, depth: usize, path: Seq<usize>, further: Seq<usize>)
    requires
        path.len() >= 1,
        further.len() >= 1,
        group_down(g, path) is Some,
        group_down(group_down(g, path)->0, further) is Some,
        depth + path.len() + further.len() - 1 <= usize::MAX,
    ensures
        ({
            let h = group_down(g, path)->0;
            let inner = group_down(h, further)->0;
            let list = names_at(g.children, depth, 0);
            exists|i: int, j: int| {
                &&& 0 <= i < j < list.len()
                &&& #[trigger] list[i] == (h.id, h.name, (depth + path.len() - 1) as usize)
                &&& #[trigger] list[j] == (inner.id, inner.name, (depth + path.len() + further.len() - 1) as usize)
            }
        }),
    decreases path.len(),
{
    let h = group_down(g, path)->0;
    let inner = group_down(h, further)->0;
    let s = g.children;
    let k = path[0] as int;
    let c = match s[k] {
        NodeView::Group(c) => c,
        _ => g,
    };
    let inside = names_at(c.children, deeper(depth), 0);
    let here = seq![(c.id, c.name, depth)] + inside;
    assert(names_at(s, depth, k) == here + names_at(s, depth, k + 1));
    let pre = lemma_names_suffix(s, depth, 0, k);
    let list = names_at(s, depth, 0);
    let at = pre.len() as int;
    assert(list == pre + (here + names_at(s, depth, k + 1)));
    if path.len() == 1 {
        assert(group_down(g, path) == group_down(c, path.drop_first()));
        assert(path.drop_first() =~= Seq::<usize>::empty());
        assert(h == c);
        lemma_listed_at_depth(c, deeper(depth), further);
        let e = (inner.id, inner.name, (depth + path.len() + further.len() - 1) as usize);
        let j = choose|j: int| 0 <= j < inside.len() && inside[j] == e;
        assert(list[at] == (h.id, h.name, (depth + path.len() - 1) as usize));
        assert(list[at + 1 + j] == e);
    } else {
        assert(group_down(g, path) == group_down(c, path.drop_first()));
        lemma_listed_before_inside(c, deeper(depth), path.drop_first(), further);
        let hi = (h.id, h.name, (depth + path.len() - 1) as usize);
        let ie = (inner.id, inner.name, (depth + path.len() + further.len() - 1) as usize);
        let (i, j) = choose|i: int, j: int| {
            &&& 0 <= i < j < inside.len()
            &&& #[trigger] inside[i] == hi
            &&& #[trigger] inside[j] == ie
        };
        assert(list[at + 1 + i] == hi);
        assert(list[at + 1 + j] == ie);
    }
}

/// In the list of the groups of a scene, a group below the root comes
/// before every group inside it, each with the number of steps down from
/// the root.
pub proof fn lemma_group_names_outer_first(root: GroupView, path: Seq<usize>, further: Seq<usize>)
    requires
        path.len() >= 1,
        further.len() >= 1,
        group_down(root, path) is Some,
        group_down(group_down(root, path)->0, further) is Some,
        path.len() + further.len() <= usize::MAX,
    ensures
        ({
            let h = group_down(root, path)->0;
            let inner = group_down(h, further)->0;
            let list = seq![(ROOT_ID, root.name, 0usize)] + names_at(root.children, 1, 0);
            exists|i: int, j: int| {
                &&& 0 <= i < j < list.len()
                &&& #[trigger] list[i] == (h.id, h.name, path.len() as usize)
                &&& #[trigger] list[j] == (inner.id, inner.name, (path.len() + further.len()) as usize)
            }
        }),
{
    let h = group_down(root, path)->0;
    let inner = group_down(h, further)->0;
    lemma_listed_before_inside(root, 1, path, further);
    let rest = names_at(root.children, 1, 0);
    let list = seq![(ROOT_ID, root.name, 0usize)] + rest;
    let hi = (h.id, h.name, path.len() as usize);
    let ie = (inner.id, inner.name, (path.len() + further.len()) as usize);
    let (i, j) = choose|i: int, j: int| {
        &&& 0 <= i < j < rest.len()
        &&& #[trigger] rest[i] == hi
        &&& #[trigger] rest[j] == ie
    };
    assert(list[1 + i] == hi);
    assert(list[1 + j] == ie);
}

} // verus!
