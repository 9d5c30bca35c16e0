//! Which nodes draw, and in what order.
//!
//! A node draws only when it and every group above it show for that
//! screen. The walk starts at the root and takes each child in turn, so a
//! group takes one place in the order of its parent and its children draw
//! inside that place.

use vstd::prelude::*;

use crate::scene::model::{
    Audience, Group, GroupView, Node, NodeId, NodeView, lemma_view_nodes, nodes_view, shown_of,
};
use crate::scene::Scene;

verus! {

broadcast use lemma_view_nodes;

/// The maps (or, with `ink`, the drawings) of `s` from place `k` on that
/// draw for `audience`, in the order they draw.
pub open spec fn drawn_at(s: Seq<NodeView>, audience: Audience, ink: bool, k: int) -> Seq<NodeId>
    decreases s, s.len() - k,
{
    if k < 0 || k >= s.len() {
        Seq::empty()
    } else {
        let here = if !shown_of(s[k]).allows(audience) {
            Seq::empty()
        } else {
            match s[k] {
                NodeView::Asset(leaf) => if ink { Seq::empty() } else { seq![leaf.id] },
                NodeView::Stroke(leaf) => if ink { seq![leaf.id] } else { Seq::empty() },
                NodeView::Group(g) => drawn_at(g.children, audience, ink, 0),
            }
        };
        here + drawn_at(s, audience, ink, k + 1)
    }
}

/// The maps of `s` from place `k` on that the DM screen draws, each with
/// whether the TV shows it too. `on_tv` says whether the groups above let
/// the TV show anything.
pub open spec fn dm_at(s: Seq<NodeView>, on_tv: bool, k: int) -> Seq<(NodeId, bool)>
    decreases s, s.len() - k,
{
    if k < 0 || k >= s.len() {
        Seq::empty()
    } else {
        let shown = shown_of(s[k]);
        let reaches_tv = on_tv && shown.tv;
        let here = if !shown.dm {
            Seq::empty()
        } else {
            match s[k] {
                NodeView::Asset(leaf) => seq![(leaf.id, reaches_tv)],
                NodeView::Stroke(_) => Seq::empty(),
                NodeView::Group(g) => dm_at(g.children, reaches_tv, 0),
            }
        };
        here + dm_at(s, on_tv, k + 1)
    }
}

/// Every map (or, with `ink`, every drawing) of `s` from place `k` on,
/// however deep, shown or not.
pub open spec fn held_at(s: Seq<NodeView>, ink: bool, k: int) -> Seq<NodeId>
    decreases s, s.len() - k,
{
    if k < 0 || k >= s.len() {
        Seq::empty()
    } else {
        let here = match s[k] {
            NodeView::Asset(leaf) => if ink { Seq::empty() } else { seq![leaf.id] },
            NodeView::Stroke(leaf) => if ink { seq![leaf.id] } else { Seq::empty() },
            NodeView::Group(g) => held_at(g.children, ink, 0),
        };
        here + held_at(s, ink, k + 1)
    }
}

/// Every group of `s` from place `k` on, each before the groups inside it.
pub open spec fn groups_at(s: Seq<NodeView>, k: int) -> Seq<GroupView>
    decreases s, s.len() - k,
{
    if k < 0 || k >= s.len() {
        Seq::empty()
    } else {
        let here = match s[k] {
            NodeView::Group(g) => seq![g] + groups_at(g.children, 0),
            _ => Seq::empty(),
        };
        here + groups_at(s, k + 1)
    }
}

fn collect_drawn(nodes: &Vec<Node>, audience: Audience, ink: bool, drawn: &mut Vec<NodeId>)
    ensures
        final(drawn)@ == old(drawn)@ + drawn_at(nodes_view(nodes), audience, ink, 0),
    decreases nodes,
{
    let ghost s = nodes_view(nodes);
    let ghost start = drawn@;
    let mut i: usize = 0;
    while i < nodes.len()
        invariant
            i <= nodes.len() == s.len(),
            s == nodes_view(nodes),
            start + drawn_at(s, audience, ink, 0) == drawn@ + drawn_at(s, audience, ink, i as int),
        decreases nodes.len() - i,
    {
        let ghost before = drawn@;
        let node = &nodes[i];
        if node.shows(audience) {
            match node {
                Node::Asset(leaf) => if !ink {
                    drawn.push(leaf.id);
                },
                Node::Stroke(leaf) => if ink {
                    drawn.push(leaf.id);
                },
                Node::Group(group) => collect_drawn(&group.children, audience, ink, drawn),
            }
        }
        proof {
            let here = drawn@.subrange(before.len() as int, drawn@.len() as int);
            assert(drawn@ =~= before + here);
            assert(drawn_at(s, audience, ink, i as int) == here + drawn_at(s, audience, ink, i + 1));
            assert(before + (here + drawn_at(s, audience, ink, i + 1)) =~= drawn@ + drawn_at(s, audience, ink, i + 1));
        }
        i += 1;
    }
    proof {
        assert(drawn@ + drawn_at(s, audience, ink, i as int) =~= drawn@);
    }
}

/// The maps one screen draws, in the order they draw.
///
/// A node draws only when it and every group above it show for this
/// screen.
pub fn draw_order(scene: &Scene, audience: Audience) -> (r: Vec<NodeId>)
    ensures
        r@ == drawn_at(scene@.children, audience, false, 0),
{
    let mut drawn = Vec::new();
    collect_drawn(&scene.root.children, audience, false, &mut drawn);
    proof {
        assert(Seq::<NodeId>::empty() + drawn_at(scene@.children, audience, false, 0) =~= drawn_at(scene@.children, audience, false, 0));
    }
    drawn
}

/// Every map in the scene, in the order they draw for the DM.
pub fn assets(scene: &Scene) -> (r: Vec<NodeId>)
    ensures
        r@ == drawn_at(scene@.children, Audience::Dm, false, 0),
{
    draw_order(scene, Audience::Dm)
}

/// Every drawing in the scene, in the order they draw for `audience`.
///
/// A drawing draws over every map, so the drawings come as their own list.
pub fn ink_order(scene: &Scene, audience: Audience) -> (r: Vec<NodeId>)
    ensures
        r@ == drawn_at(scene@.children, audience, true, 0),
{
    let mut drawn = Vec::new();
    collect_drawn(&scene.root.children, audience, true, &mut drawn);
    proof {
        assert(Seq::<NodeId>::empty() + drawn_at(scene@.children, audience, true, 0) =~= drawn_at(scene@.children, audience, true, 0));
    }
    drawn
}

fn collect_for_dm(nodes: &Vec<Node>, on_tv: bool, drawn: &mut Vec<(NodeId, bool)>)
    ensures
        final(drawn)@ == old(drawn)@ + dm_at(nodes_view(nodes), on_tv, 0),
    decreases nodes,
{
    let ghost s = nodes_view(nodes);
    let ghost start = drawn@;
    let mut i: usize = 0;
    while i < nodes.len()
        invariant
            i <= nodes.len() == s.len(),
            s == nodes_view(nodes),
            start + dm_at(s, on_tv, 0) == drawn@ + dm_at(s, on_tv, i as int),
        decreases nodes.len() - i,
    {
        let ghost before = drawn@;
        let node = &nodes[i];
        if node.shows(Audience::Dm) {
            let reaches_tv = on_tv && node.shows(Audience::Tv);
            match node {
                Node::Asset(leaf) => drawn.push((leaf.id, reaches_tv)),
                Node::Stroke(_) => {},
                Node::Group(group) => collect_for_dm(&group.children, reaches_tv, drawn),
            }
        }
        proof {
            let here = drawn@.subrange(before.len() as int, drawn@.len() as int);
            assert(drawn@ =~= before + here);
            assert(dm_at(s, on_tv, i as int) == here + dm_at(s, on_tv, i + 1));
            assert(before + (here + dm_at(s, on_tv, i + 1)) =~= drawn@ + dm_at(s, on_tv, i + 1));
        }
        i += 1;
    }
    proof {
        assert(drawn@ + dm_at(s, on_tv, i as int) =~= drawn@);
    }
}

/// The maps the DM screen draws, each with whether the TV shows it too.
///
/// A group that is off for the TV takes every map under it off the TV,
/// whatever the map says. The DM screen draws the ones the TV misses at
/// half strength.
pub fn dm_draw_order(scene: &Scene) -> (r: Vec<(NodeId, bool)>)
    ensures
        r@ == dm_at(scene@.children, scene@.shown.tv, 0),
{
    let mut drawn = Vec::new();
    collect_for_dm(&scene.root.children, scene.root.shows(Audience::Tv), &mut drawn);
    proof {
        assert(Seq::<(NodeId, bool)>::empty() + dm_at(scene@.children, scene@.shown.tv, 0) =~= dm_at(scene@.children, scene@.shown.tv, 0));
    }
    drawn
}

fn collect_held(nodes: &Vec<Node>, ink: bool, found: &mut Vec<NodeId>)
    ensures
        final(found)@ == old(found)@ + held_at(nodes_view(nodes), ink, 0),
    decreases nodes,
{
    let ghost s = nodes_view(nodes);
    let ghost start = found@;
    let mut i: usize = 0;
    while i < nodes.len()
        invariant
            i <= nodes.len() == s.len(),
            s == nodes_view(nodes),
            start + held_at(s, ink, 0) == found@ + held_at(s, ink, i as int),
        decreases nodes.len() - i,
    {
        let ghost before = found@;
        match &nodes[i] {
            Node::Asset(leaf) => if !ink {
                found.push(leaf.id);
            },
            Node::Stroke(leaf) => if ink {
                found.push(leaf.id);
            },
            Node::Group(group) => collect_held(&group.children, ink, found),
        }
        proof {
            let here = found@.subrange(before.len() as int, found@.len() as int);
            assert(found@ =~= before + here);
            assert(held_at(s, ink, i as int) == here + held_at(s, ink, i + 1));
            assert(before + (here + held_at(s, ink, i + 1)) =~= found@ + held_at(s, ink, i + 1));
        }
        i += 1;
    }
    proof {
        assert(found@ + held_at(s, ink, i as int) =~= found@);
    }
}

/// Every map under a group, however deep.
pub fn under(group: &Group) -> (r: Vec<NodeId>)
    ensures
        r@ == held_at(group@.children, false, 0),
{
    let mut found = Vec::new();
    collect_held(&group.children, false, &mut found);
    proof {
        assert(Seq::<NodeId>::empty() + held_at(group@.children, false, 0) =~= held_at(group@.children, false, 0));
    }
    found
}

/// Every drawing under a group, however deep.
pub fn ink_under(group: &Group) -> (r: Vec<NodeId>)
    ensures
        r@ == held_at(group@.children, true, 0),
{
    let mut found = Vec::new();
    collect_held(&group.children, true, &mut found);
    proof {
        assert(Seq::<NodeId>::empty() + held_at(group@.children, true, 0) =~= held_at(group@.children, true, 0));
    }
    found
}

/// Past a hidden group at place `k`, a list draws as it does with the
/// group taken out.
proof fn lemma_after_hidden(s: Seq<NodeView>, k: int, audience: Audience, ink: bool, j: int)
    requires
        0 <= k < j <= s.len(),
    ensures
        drawn_at(s, audience, ink, j) == drawn_at(s.remove(k), audience, ink, j - 1),
    decreases s.len() - j,
{
    if j < s.len() {
        assert(s.remove(k)[j - 1] == s[j]);
        lemma_after_hidden(s, k, audience, ink, j + 1);
    }
}

/// Up to a hidden group at place `k`, a list draws as it does with the
/// group taken out.
proof fn lemma_before_hidden(s: Seq<NodeView>, k: int, audience: Audience, ink: bool, j: int)
    requires
        0 <= j <= k < s.len(),
        !shown_of(s[k]).allows(audience),
    ensures
        drawn_at(s, audience, ink, j) == drawn_at(s.remove(k), audience, ink, j),
    decreases k - j,
{
    if j < k {
        assert(s.remove(k)[j] == s[j]);
        lemma_before_hidden(s, k, audience, ink, j + 1);
    } else {
        lemma_after_hidden(s, k, audience, ink, k + 1);
        assert(drawn_at(s, audience, ink, k) =~= drawn_at(s, audience, ink, k + 1));
    }
}

/// A group whose switch for a screen is off draws nothing of what it
/// holds there, however deep: the list around it draws as if the group
/// were not in it.
pub proof fn lemma_hidden_group_draws_nothing(s: Seq<NodeView>, k: int, audience: Audience, ink: bool)
    requires
        0 <= k < s.len(),
        s[k] is Group,
        !shown_of(s[k]).allows(audience),
    ensures
        drawn_at(s, audience, ink, 0) == drawn_at(s.remove(k), audience, ink, 0),
{
    lemma_before_hidden(s, k, audience, ink, 0);
}

} // verus!