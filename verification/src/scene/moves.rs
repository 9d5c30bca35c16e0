//! The edits that change the shape of the tree: a node into a group, a
//! node to another's place, and a group that goes and leaves its children.
//!
//! Every edit here moves nodes between lists; none of them touches what a
//! node holds.

use vstd::prelude::*;

use crate::scene::edit::{group_of, lemma_put_twice, put_group, take_among, take_in, with_children};
use crate::scene::model::{GroupView, Node, NodeId, NodeView, ROOT_ID, id_of, lemma_view_nodes, view_node, view_nodes};
use crate::scene::tree::{chain, children_in, find_at, parent_in, position_at};
use crate::scene::{
    Scene, ancestors, children_of, find, fuel_of, lend_group, parent_of, push_into,
    return_group, take_node,
};

verus! {

broadcast use lemma_view_nodes;

/// Whether `id` is `group` or one of the groups above it.
pub open spec fn holds_or_is(root: GroupView, id: NodeId, group: NodeId) -> bool {
    id == group || chain(root, group, fuel_of(root)).contains(id)
}

/// Whether the node of this id is on top of the group of id `parent`.
pub open spec fn on_top(root: GroupView, id: NodeId, parent: NodeId) -> bool {
    match children_in(root, parent) {
        Some(children) => children.len() > 0 && id_of(children.last()) == id,
        None => false,
    }
}


/// What [`move_into`] makes of a tree, and whether the node moved. A move
/// that does not happen leaves the tree as it was.
pub open spec fn moved_into(root: GroupView, id: NodeId, parent: NodeId) -> (GroupView, bool) {
    if holds_or_is(root, id, parent) || on_top(root, id, parent) {
        (root, false)
    } else {
        match take_in(root, id) {
            (left, Some(node)) => match group_of(left, parent) {
                Some(g) => (put_group(left, parent, with_children(g, g.children.push(node))), true),
                None => (root, false),
            },
            (_, None) => (root, false),
        }
    }
}

/// Whether a list of ids holds this one.
pub fn holds_id(ids: &Vec<NodeId>, id: NodeId) -> (r: bool)
    ensures
        r == ids@.contains(id),
{
    let mut i: usize = 0;
    while i < ids.len()
        invariant
            i <= ids.len(),
            forall|j: int| 0 <= j < i ==> ids@[j] != id,
        decreases ids.len() - i,
    {
        if ids[i] == id {
            return true;
        }
        i += 1;
    }
    false
}

/// Moves a node into a group, on top of what the group holds.
///
/// A group cannot go into itself, or into anything it holds. Returns
/// `true` when it moved.
pub fn move_into(scene: &mut Scene, id: NodeId, parent: NodeId) -> (r: bool)
    ensures
        (final(scene)@, r) == moved_into(old(scene)@, id, parent),
        !r ==> final(scene)@ == old(scene)@,
{
    let ghost was = scene@;
    if id == parent || holds_id(&ancestors(scene, parent), id) {
        return false;
    }
    let top = match children_of(scene, parent) {
        Some(children) => children.len() > 0 && children[children.len() - 1].id() == id,
        None => false,
    };
    if top {
        return false;
    }
    let saved = scene.root.duplicate();
    let node = match take_node(scene, id) {
        Some(node) => node,
        None => {
            proof {
                crate::scene::edit::lemma_take_nothing(was, id);
            }
            return false;
        },
    };
    if push_into(scene, parent, node) {
        true
    } else {
        scene.root = saved;
        false
    }
}

/// The tree once the taken node went to the place `target` had, or
/// `None` when no group holds `target` any more.
pub open spec fn landed_at(root: GroupView, target: NodeId, node: NodeView) -> Option<GroupView> {
    match parent_in(root, target) {
        None => None,
        Some((parent, place)) => match group_of(root, parent) {
            None => None,
            Some(g) => {
                let at = if place < g.children.len() { place } else { g.children.len() as int };
                Some(put_group(root, parent, with_children(g, g.children.insert(at, node))))
            },
        },
    }
}

/// What [`move_above`] makes of a tree, and whether the node moved. A
/// move that does not happen leaves the tree as it was.
pub open spec fn moved_above(root: GroupView, id: NodeId, target: NodeId) -> (GroupView, bool) {
    if id == target || target == ROOT_ID || chain(root, target, fuel_of(root)).contains(id) {
        (root, false)
    } else {
        match take_in(root, id) {
            (left, Some(node)) => match landed_at(left, target, node) {
                Some(moved) => (moved, true),
                None => (root, false),
            },
            (_, None) => (root, false),
        }
    }
}

/// Moves a node to where another node stands.
///
/// The node joins the group that holds `target`, and takes the place
/// `target` had, so it lands under `target` in the list. A group cannot go
/// into itself, or into anything it holds. Returns `true` when it moved.
pub fn move_above(scene: &mut Scene, id: NodeId, target: NodeId) -> (r: bool)
    ensures
        (final(scene)@, r) == moved_above(old(scene)@, id, target),
        !r ==> final(scene)@ == old(scene)@,
{
    let ghost was = scene@;
    if id == target || target == ROOT_ID || holds_id(&ancestors(scene, target), id) {
        return false;
    }
    let saved = scene.root.duplicate();
    let node = match take_node(scene, id) {
        Some(node) => node,
        None => {
            proof {
                crate::scene::edit::lemma_take_nothing(was, id);
            }
            return false;
        },
    };
    let ghost left = scene@;
    let (parent, place) = match parent_of(scene, target) {
        Some(found) => found,
        None => {
            scene.root = saved;
            return false;
        },
    };
    match lend_group(scene, parent) {
        None => {
            scene.root = saved;
            return false;
        },
        Some(mut group) => {
            let ghost g = group@;
            let ghost old_children = group.children@;
            let at = if place < group.children.len() { place } else { group.children.len() };
            group.children.insert(at, node);
            proof {
                assert(g.children == view_nodes(old_children));
                crate::scene::model::lemma_view_nodes_ext(group.children@, g.children.insert(at as int, node@));
                assert(group@ =~= with_children(g, g.children.insert(at as int, node@)));
            }
            return_group(scene, parent, group, Ghost(left));
            true
        },
    }
}

/// `children` with `kids` set in at place `at`.
pub open spec fn spliced(children: Seq<NodeView>, at: int, kids: Seq<NodeView>) -> Seq<NodeView> {
    children.subrange(0, at) + kids + children.subrange(at, children.len() as int)
}

/// What [`ungroup`] makes of a tree, and whether the group went.
pub open spec fn ungrouped(root: GroupView, id: NodeId) -> (GroupView, bool) {
    if id == ROOT_ID || !(find_at(root.children, id, 0) matches Some(NodeView::Group(_))) {
        (root, false)
    } else {
        match parent_in(root, id) {
            None => (root, false),
            Some((parent, place)) => match take_in(root, id) {
                (left, Some(NodeView::Group(gone))) => match group_of(left, parent) {
                    None => (root, false),
                    Some(h) => {
                        let at = if place < h.children.len() { place } else { h.children.len() as int };
                        (put_group(left, parent, with_children(h, spliced(h.children, at, gone.children))), true)
                    },
                },
                (_, _) => (root, false),
            },
        }
    }
}

/// Takes a group out of the tree and leaves its children in its place.
///
/// The root stays: the tree needs a root. Returns `true` when it went.
pub fn ungroup(scene: &mut Scene, id: NodeId) -> (r: bool)
    ensures
        (final(scene)@, r) == ungrouped(old(scene)@, id),
        !r ==> final(scene)@ == old(scene)@,
{
    let ghost was = scene@;
    if id == ROOT_ID {
        return false;
    }
    match find(scene, id) {
        Some(Node::Group(_)) => {},
        _ => {
            return false;
        },
    }
    let (parent, place) = match parent_of(scene, id) {
        Some(found) => found,
        None => {
            return false;
        },
    };
    let saved = scene.root.duplicate();
    let gone = match take_node(scene, id) {
        Some(Node::Group(gone)) => gone,
        Some(_) => {
            scene.root = saved;
            return false;
        },
        None => {
            proof {
                crate::scene::edit::lemma_take_nothing(was, id);
            }
            return false;
        },
    };
    let ghost left = scene@;
    let mut holder = match lend_group(scene, parent) {
        Some(holder) => holder,
        None => {
            scene.root = saved;
            return false;
        },
    };
    let ghost h = holder@;
    let ghost kids = gone@.children;
    proof {
        assert(h.children == view_nodes(holder.children@));
        assert(kids == view_nodes(gone.children@));
    }
    let at = if place < holder.children.len() { place } else { holder.children.len() };
    let mut rest = gone.children;
    let mut step: usize = 0;
    proof {
        assert(spliced(h.children, at as int, kids.subrange(0, 0)) =~= h.children);
        assert(kids.skip(0) =~= kids);
    }
    while rest.len() > 0
        invariant
            h == group_of(left, parent)->0,
            at <= h.children.len(),
            step <= kids.len(),
            view_nodes(rest@) == kids.skip(step as int),
            view_nodes(holder.children@) == spliced(h.children, at as int, kids.subrange(0, step as int)),
            holder@ == with_children(h, view_nodes(holder.children@)),
            holder.children@.len() == h.children.len() + step,
        decreases rest.len(),
    {
        let ghost before_rest = rest@;
        let ghost before_holder = holder.children@;
        proof {
            assert(view_nodes(before_rest).len() == before_rest.len());
            assert(step < kids.len());
            assert(view_nodes(before_rest)[0] == view_node(before_rest[0]));
            assert(kids.skip(step as int)[0] == kids[step as int]);
        }
        let child = rest.remove(0);
        let len = holder.children.len();
        assert(at + step <= len);
        holder.children.insert(at + step, child);
        proof {
            assert(view_node(child) == kids[step as int]);
            assert(kids.skip(step + 1) =~= kids.skip(step as int).drop_first());
            let before_view = spliced(h.children, at as int, kids.subrange(0, step as int));
            let target = spliced(h.children, at as int, kids.subrange(0, step + 1));
            assert(target =~= before_view.insert(at + step, kids[step as int]));
            assert(view_nodes(before_holder) == before_view);
            assert forall|i: int| 0 <= i < holder.children@.len() implies view_node(
                #[trigger] holder.children@[i],
            ) == target[i] by {
                if i < at + step {
                    assert(holder.children@[i] == before_holder[i]);
                    assert(view_nodes(before_holder)[i] == view_node(before_holder[i]));
                } else if i > at + step {
                    assert(holder.children@[i] == before_holder[i - 1]);
                    assert(view_nodes(before_holder)[i - 1] == view_node(before_holder[i - 1]));
                }
            }
            crate::scene::model::lemma_view_nodes_ext(rest@, kids.skip(step + 1));
            crate::scene::model::lemma_view_nodes_ext(
                holder.children@,
                spliced(h.children, at as int, kids.subrange(0, step + 1)),
            );
            assert(holder@ =~= with_children(h, view_nodes(holder.children@)));
        }
        let grown = holder.children.len();
        assert(step + 1 <= grown);
        step += 1;
    }
    proof {
        assert(kids.subrange(0, step as int) =~= kids);
    }
    return_group(scene, parent, holder, Ghost(left));
    true
}


/// The node a take hands over holds the id it was taken by.
pub(crate) proof fn lemma_taken_id(g: GroupView, id: NodeId)
    ensures
        take_in(g, id).1 matches Some(node) ==> id_of(node) == id,
    decreases g, 0int,
{
    crate::scene::tree::lemma_position(g.children, id, 0);
    if position_at(g.children, id, 0) is None {
        lemma_taken_among_id(g.children, id, 0);
    }
}

proof fn lemma_taken_among_id(s: Seq<NodeView>, id: NodeId, k: int)
    ensures
        take_among(s, id, k).1 matches Some(node) ==> id_of(node) == id,
    decreases s, s.len() - k,
{
    if 0 <= k < s.len() {
        match s[k] {
            NodeView::Group(g) => {
                lemma_taken_id(g, id);
                lemma_taken_among_id(s, id, k + 1);
            },
            _ => {
                lemma_taken_among_id(s, id, k + 1);
            },
        }
    }
}

/// A node moved into a group lands on top of what that group holds.
pub proof fn lemma_moved_into_lands_on_top(root: GroupView, id: NodeId, parent: NodeId)
    requires
        moved_into(root, id, parent).1,
    ensures
        group_of(moved_into(root, id, parent).0, parent) matches Some(g) && g.children.len() > 0 && id_of(
            g.children.last(),
        ) == id,
{
    let (left, taken) = take_in(root, id);
    lemma_taken_id(root, id);
    let node = taken->0;
    let g = group_of(left, parent)->0;
    let a = with_children(g, g.children.push(node));
    crate::scene::edit::lemma_first_group_id(left.children, parent, 0);
    lemma_put_twice(left, parent, a, a);
    assert(a.children.last() == node);
}

/// A node moved to another's place lands in the group that held that
/// node, at the place it had: the other node now sits just above it.
pub proof fn lemma_moved_above_lands_in_place(root: GroupView, id: NodeId, target: NodeId)
    requires
        moved_above(root, id, target).1,
    ensures
        ({
            let left = take_in(root, id).0;
            let (parent, place) = parent_in(left, target)->0;
            let before = group_of(left, parent)->0;
            &&& group_of(moved_above(root, id, target).0, parent) matches Some(g)
            &&& 0 <= place < before.children.len() ==> id_of(g.children[place]) == id
            &&& place >= before.children.len() ==> g.children.len() > 0 && id_of(g.children.last()) == id
        }),
{
    let (left, taken) = take_in(root, id);
    lemma_taken_id(root, id);
    let node = taken->0;
    let (parent, place) = parent_in(left, target)->0;
    let g = group_of(left, parent)->0;
    let at = if place < g.children.len() { place } else { g.children.len() as int };
    let a = with_children(g, g.children.insert(at, node));
    crate::scene::edit::lemma_first_group_id(left.children, parent, 0);
    lemma_put_twice(left, parent, a, a);
    if place >= 0 {
        assert(a.children[at] == node);
    }
}

/// An ungrouped group leaves its children, in their order, in the group
/// that held it, at the place it had.
pub proof fn lemma_ungrouped_children_stay(root: GroupView, id: NodeId)
    requires
        ungrouped(root, id).1,
    ensures
        ({
            let (parent, place) = parent_in(root, id)->0;
            let left = take_in(root, id).0;
            let gone = take_in(root, id).1->0;
            let before = group_of(left, parent)->0;
            let at = if place < before.children.len() { place } else { before.children.len() as int };
            &&& gone is Group
            &&& group_of(ungrouped(root, id).0, parent) matches Some(g)
            &&& g.children == spliced(before.children, at, gone->Group_0.children)
        }),
{
    let (parent, place) = parent_in(root, id)->0;
    let left = take_in(root, id).0;
    let h = group_of(left, parent)->0;
    let gone = take_in(root, id).1->0;
    let at = if place < h.children.len() { place } else { h.children.len() as int };
    let a = with_children(h, spliced(h.children, at, gone->Group_0.children));
    crate::scene::edit::lemma_first_group_id(left.children, parent, 0);
    lemma_put_twice(left, parent, a, a);
}

} // verus!