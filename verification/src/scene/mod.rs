//! What is on the canvas: one tree of groups, maps and drawings.
//!
//! The tree holds each node by its id and its screen switches. What a map
//! or a drawing holds beyond that lives with the program, keyed by id. A
//! scene is one tree: the root group holds every other node, keeps its
//! name, and always shows on both screens.

use vstd::prelude::*;

pub mod model;
pub mod tree;
pub mod edit;
pub mod moves;
pub mod draw;
pub mod order;
pub mod change;
pub mod restructure;
pub mod select;
pub mod grouping;
pub mod repair;
pub mod laws;
pub mod steps;
pub mod reshape_law;
pub mod repair_law;

use crate::scene::edit::{exchange_among, lemma_put_twice, pushed_into, with_children, first_group_at, group_of, put_group, put_group_at, take_from, take_in};
use crate::scene::model::{
    Group, GroupView, Node, NodeId, NodeView, ROOT_ID, Shown, lemma_view_nodes, nodes_view,
    view_node, view_nodes,
};
use crate::scene::tree::{
    chain, children_in, count_at, count_nodes, find_among, find_at, parent_in, parent_in_group,
    path_among, path_at, highest_at,
};

verus! {

broadcast use lemma_view_nodes;

/// The name of the root group. The DM cannot change it.
pub const ROOT_NAME: &'static str = "Scene";

/// Everything one scene holds in its tree.
#[derive(Debug, PartialEq, Eq)]
pub struct Scene {
    /// The group that holds everything else.
    pub root: Group,
}

impl View for Scene {
    type V = GroupView;

    open spec fn view(&self) -> GroupView {
        self.root@
    }
}

/// The name a tree gives a node of this id when it shows the path to it.
pub open spec fn name_in(root: GroupView, id: NodeId) -> Seq<char> {
    if id == ROOT_ID {
        root.name
    } else {
        match find_at(root.children, id, 0) {
            Some(NodeView::Group(g)) => g.name,
            _ => Seq::empty(),
        }
    }
}

/// How many steps up the tree a walk may take: one for each node in it.
pub open spec fn fuel_of(root: GroupView) -> nat {
    if count_at(root.children, 0) <= u64::MAX {
        count_at(root.children, 0)
    } else {
        u64::MAX as nat
    }
}

/// The ids from the root down to a group, the group itself last.
pub open spec fn walk_to(root: GroupView, group: NodeId) -> Seq<NodeId> {
    chain(root, group, fuel_of(root)).reverse().push(group)
}

impl Scene {
    /// A scene with nothing in it but the root.
    pub fn new() -> (r: Scene)
        ensures
            r@.id == ROOT_ID,
            r@.name == ROOT_NAME@,
            r@.shown == (Shown { dm: true, tv: true }),
            r@.children == Seq::<NodeView>::empty(),
            !r@.ink,
    {
        let name = ROOT_NAME.to_string();
        Scene { root: Group::new(ROOT_ID, name) }
    }

    /// A name no node in this scene holds.
    pub fn next_id(&self) -> (r: NodeId)
        requires
            highest_at(self@.children, 0, ROOT_ID as nat) < u64::MAX,
        ensures
            r == highest_at(self@.children, 0, ROOT_ID as nat) + 1,
    {
        highest_among(&self.root.children, ROOT_ID) + 1
    }
}

/// The largest id in a list, however deep, or `floor` when none is larger.
fn highest_among(nodes: &Vec<Node>, floor: NodeId) -> (r: NodeId)
    ensures
        r == highest_at(nodes_view(nodes), 0, floor as nat),
    decreases nodes,
{
    let ghost s = nodes_view(nodes);
    let mut i: usize = 0;
    let mut high = floor;
    while i < nodes.len()
        invariant
            i <= nodes.len() == s.len(),
            s == nodes_view(nodes),
            highest_at(s, 0, floor as nat) == highest_at(s, i as int, high as nat),
        decreases nodes.len() - i,
    {
        let node = &nodes[i];
        let id = node.id();
        let here = if id > high { id } else { high };
        high = match node {
            Node::Group(group) => highest_among(&group.children, here),
            _ => here,
        };
        i += 1;
    }
    high
}

/// The node of this id, wherever it sits.
pub fn find(scene: &Scene, id: NodeId) -> (r: Option<&Node>)
    ensures
        match r {
            Some(node) => find_at(scene@.children, id, 0) == Some(node@),
            None => find_at(scene@.children, id, 0) is None,
        },
{
    find_among(&scene.root.children, id)
}

/// What a group holds, the root included.
pub fn children_of(scene: &Scene, id: NodeId) -> (r: Option<&Vec<Node>>)
    ensures
        match r {
            Some(children) => children_in(scene@, id) == Some(nodes_view(children)),
            None => children_in(scene@, id) is None,
        },
{
    if id == ROOT_ID {
        return Some(&scene.root.children);
    }
    match find(scene, id) {
        Some(Node::Group(group)) => Some(&group.children),
        _ => None,
    }
}

/// Whether the tree still holds this group.
pub fn has_group(scene: &Scene, id: NodeId) -> (r: bool)
    ensures
        r == children_in(scene@, id) is Some,
{
    children_of(scene, id).is_some()
}

/// The group that holds this node, and where in it the node sits.
pub fn parent_of(scene: &Scene, id: NodeId) -> (r: Option<(NodeId, usize)>)
    ensures
        match r {
            Some((parent, place)) => parent_in(scene@, id) == Some((parent, place as int)),
            None => parent_in(scene@, id) is None,
        },
{
    parent_in_group(&scene.root, id)
}

/// Where a node sits: the place it takes at each level from the root.
///
/// The order of two paths is the order the two nodes draw in.
pub fn path_of(scene: &Scene, id: NodeId) -> (r: Option<Vec<usize>>)
    ensures
        match r {
            Some(path) => path_at(scene@.children, id, 0) == Some(path@),
            None => path_at(scene@.children, id, 0) is None,
        },
{
    path_among(&scene.root.children, id)
}

/// Every group above a node, the nearest one first.
///
/// The walk takes no more steps than the tree holds nodes, so a tree whose
/// ids repeat cannot hold it forever.
pub fn ancestors(scene: &Scene, id: NodeId) -> (r: Vec<NodeId>)
    ensures
        r@ == chain(scene@, id, fuel_of(scene@)),
{
    let fuel = count_nodes(&scene.root.children);
    let mut above: Vec<NodeId> = Vec::new();
    let mut walk = id;
    let mut left = fuel;
    while left > 0
        invariant
            chain(scene@, id, fuel as nat) == above@ + chain(scene@, walk, left as nat),
            fuel == fuel_of(scene@),
        decreases left,
    {
        match parent_of(scene, walk) {
            None => {
                proof {
                    assert(above@ + chain(scene@, walk, left as nat) =~= above@);
                }
                return above;
            },
            Some((parent, _)) => {
                above.push(parent);
                if parent == ROOT_ID {
                    proof {
                        assert(chain(scene@, walk, left as nat) == seq![parent]);
                        assert(above@ =~= above@.drop_last() + seq![parent]);
                    }
                    return above;
                }
                proof {
                    let rest = chain(scene@, parent, (left - 1) as nat);
                    assert(chain(scene@, walk, left as nat) == seq![parent] + rest);
                    assert(above@.drop_last() + (seq![parent] + rest) =~= above@ + rest);
                }
                walk = parent;
                left -= 1;
            },
        }
    }
    proof {
        assert(above@ + chain(scene@, walk, 0) =~= above@);
    }
    above
}

/// The groups from the root down to `group`, with the name of each.
///
/// The last pair is `group` itself. The list is empty when the scene holds
/// no group of that id, so a caller can fall back to the root.
pub fn path_to(scene: &Scene, group: NodeId) -> (r: Vec<(NodeId, String)>)
    ensures
        group == ROOT_ID ==> r@.len() == 1 && r@[0].0 == ROOT_ID && r@[0].1@ == scene@.name,
        group != ROOT_ID && children_in(scene@, group) is None ==> r@.len() == 0,
        group != ROOT_ID && children_in(scene@, group) is Some ==> {
            &&& r@.len() == walk_to(scene@, group).len()
            &&& forall|i: int| 0 <= i < r@.len() ==> {
                &&& (#[trigger] r@[i]).0 == walk_to(scene@, group)[i]
                &&& r@[i].1@ == name_in(scene@, walk_to(scene@, group)[i])
            }
        },
{
    if group == ROOT_ID {
        let mut only = Vec::new();
        only.push((ROOT_ID, scene.root.name.clone()));
        return only;
    }
    if !has_group(scene, group) {
        return Vec::new();
    }
    let above = ancestors(scene, group);
    let ghost walk = walk_to(scene@, group);
    let mut ids: Vec<NodeId> = Vec::new();
    let mut k: usize = above.len();
    while k > 0
        invariant
            k <= above.len(),
            ids@ == above@.subrange(k as int, above@.len() as int).reverse(),
        decreases k,
    {
        k -= 1;
        ids.push(above[k]);
        proof {
            assert(above@.subrange(k as int, above@.len() as int).reverse() =~= above@.subrange(k + 1, above@.len() as int).reverse().push(above@[k as int]));
        }
    }
    ids.push(group);
    proof {
        assert(above@.subrange(0, above@.len() as int) =~= above@);
        assert(ids@ =~= walk);
    }
    let mut out: Vec<(NodeId, String)> = Vec::new();
    let mut i: usize = 0;
    while i < ids.len()
        invariant
            i <= ids.len(),
            ids@ == walk,
            out@.len() == i,
            forall|j: int| 0 <= j < i ==> {
                &&& (#[trigger] out@[j]).0 == walk[j]
                &&& out@[j].1@ == name_in(scene@, walk[j])
            },
        decreases ids.len() - i,
    {
        let id = ids[i];
        let name = name_of_group(scene, id);
        out.push((id, name));
        i += 1;
    }
    out
}

/// The name of a group as the path line shows it, or nothing for a node
/// that is no group.
fn name_of_group(scene: &Scene, id: NodeId) -> (r: String)
    ensures
        r@ == name_in(scene@, id),
{
    if id == ROOT_ID {
        return scene.root.name.clone();
    }
    match find(scene, id) {
        Some(Node::Group(group)) => group.name.clone(),
        _ => String::new(),
    }
}

/// Exchanges the group an edit of `id` reaches for `group`.
///
/// Returns whether the tree held such a group. When it did not, both stay.
pub fn exchange_group(scene: &mut Scene, id: NodeId, group: &mut Group) -> (found: bool)
    ensures
        found == (group_of(old(scene)@, id) is Some),
        found ==> final(group)@ == group_of(old(scene)@, id)->0,
        found ==> final(scene)@ == put_group(old(scene)@, id, old(group)@),
        !found ==> final(scene)@ == old(scene)@ && final(group)@ == old(group)@,
{
    if id == ROOT_ID {
        std::mem::swap(&mut scene.root, group);
        return true;
    }
    let ghost was = scene@;
    let found = exchange_among(&mut scene.root.children, id, group);
    proof {
        if !found {
            assert(scene@ =~= was);
        }
    }
    found
}

/// The group that stands in the place of a group an edit borrowed.
pub open spec fn stand_in(id: NodeId) -> GroupView {
    GroupView {
        id,
        name: Seq::empty(),
        shown: Shown { dm: true, tv: true },
        children: Seq::empty(),
        ink: false,
    }
}

/// Borrows the group an edit of `id` reaches. The tree keeps a stand-in in
/// its place until [`return_group`] puts it back.
pub(crate) fn lend_group(scene: &mut Scene, id: NodeId) -> (r: Option<Group>)
    ensures
        r is Some == (group_of(old(scene)@, id) is Some),
        r matches Some(g) ==> g@ == group_of(old(scene)@, id)->0 && final(scene)@ == put_group(
            old(scene)@,
            id,
            stand_in(id),
        ),
        r is None ==> final(scene)@ == old(scene)@,
{
    let mut held = Group::new(id, String::new());
    proof {
        assert(held@.name =~= Seq::<char>::empty());
        assert(held@ =~= stand_in(id));
    }
    if exchange_group(scene, id, &mut held) {
        Some(held)
    } else {
        None
    }
}

/// Puts a group [`lend_group`] lent back in its place.
pub(crate) fn return_group(scene: &mut Scene, id: NodeId, group: Group, Ghost(before): Ghost<GroupView>)
    requires
        group_of(before, id) is Some,
        old(scene)@ == put_group(before, id, stand_in(id)),
    ensures
        final(scene)@ == put_group(before, id, group@),
{
    let mut group = group;
    proof {
        lemma_put_twice(before, id, stand_in(id), group@);
    }
    let _ = exchange_group(scene, id, &mut group);
}

/// Puts a node into a group, on top of what the group already holds.
pub fn push_into(scene: &mut Scene, parent: NodeId, node: Node) -> (r: bool)
    ensures
        r == (group_of(old(scene)@, parent) is Some),
        r ==> final(scene)@ == pushed_into(old(scene)@, parent, node@),
        !r ==> final(scene)@ == old(scene)@,
{
    let ghost was = scene@;
    match lend_group(scene, parent) {
        None => false,
        Some(mut group) => {
            let ghost target = group@;
            let ghost old_children = group.children@;
            group.children.push(node);
            proof {
                assert(target.children == view_nodes(old_children));
                crate::scene::model::lemma_view_nodes_ext(group.children@, target.children.push(node@));
                assert(group@ =~= GroupView { children: target.children.push(node@), ..target });
            }
            return_group(scene, parent, group, Ghost(was));
            true
        },
    }
}

/// Takes a node out of the tree and hands it over.
pub fn take_node(scene: &mut Scene, id: NodeId) -> (r: Option<Node>)
    ensures
        final(scene)@ == take_in(old(scene)@, id).0,
        match r {
            Some(node) => take_in(old(scene)@, id).1 == Some(node@),
            None => take_in(old(scene)@, id).1 is None,
        },
{
    take_from(&mut scene.root, id)
}

} // verus!
