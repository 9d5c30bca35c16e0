//! A tree read from a file, made to follow the rules of a scene.
//!
//! A scene file is text a DM can edit, so it may hold a root with another
//! name, or two nodes of one id. Every node needs an id of its own, since a
//! selection points at nodes by id.

use vstd::prelude::*;

use std::collections::HashSet;

use crate::scene::model::{
    Group, GroupView, Leaf, Node, NodeId, NodeView, ROOT_ID, Shown, id_of, lemma_view_nodes,
    lemma_view_nodes_ext, nodes_view, view_node, view_nodes,
};
use crate::scene::{ROOT_NAME, Scene};

verus! {

broadcast use lemma_view_nodes, vstd::std_specs::hash::group_hash_axioms;

/// The first id from `n` on that `taken` does not hold, or the largest id
/// when every one from `n` on is taken.
pub open spec fn free_at(taken: Set<NodeId>, n: NodeId) -> NodeId
    decreases u64::MAX - n,
{
    if !taken.contains(n) || n == u64::MAX {
        n
    } else {
        free_at(taken, (n + 1) as NodeId)
    }
}

/// The id a node keeps or takes, the ids taken after it, and where the
/// search for a free id goes on.
///
/// A node keeps its id when no node before it holds that id and it is not
/// the root's. Otherwise it takes the first free id from `next` on.
pub open spec fn rename_one(id: NodeId, taken: Set<NodeId>, next: NodeId) -> (NodeId, Set<NodeId>, NodeId) {
    if id == ROOT_ID || taken.contains(id) {
        let n = free_at(taken, next);
        (n, taken.insert(n), n)
    } else {
        (id, taken.insert(id), next)
    }
}

/// A node with another id.
pub open spec fn with_id(node: NodeView, id: NodeId) -> NodeView {
    match node {
        NodeView::Group(g) => NodeView::Group(GroupView { id, ..g }),
        NodeView::Asset(l) => NodeView::Asset(Leaf { id, ..l }),
        NodeView::Stroke(l) => NodeView::Stroke(Leaf { id, ..l }),
    }
}

/// A list with every node given an id of its own, a parent before its
/// children, and the ids taken and the search point after it.
pub open spec fn renamed(s: Seq<NodeView>, taken: Set<NodeId>, next: NodeId) -> (Seq<NodeView>, Set<NodeId>, NodeId)
    decreases s,
{
    if s.len() == 0 {
        (Seq::empty(), taken, next)
    } else {
        let (id, t1, n1) = rename_one(id_of(s[0]), taken, next);
        let (node, t2, n2) = match s[0] {
            NodeView::Group(g) => {
                let (children, t, n) = renamed(g.children, t1, n1);
                (NodeView::Group(GroupView { id, children, ..g }), t, n)
            },
            _ => (with_id(s[0], id), t1, n1),
        };
        let (rest, t3, n3) = renamed(s.drop_first(), t2, n2);
        (seq![node] + rest, t3, n3)
    }
}

/// A tree with a root that follows the rules and no id twice.
pub open spec fn repaired_view(root: GroupView) -> GroupView {
    GroupView {
        id: ROOT_ID,
        name: ROOT_NAME@,
        shown: Shown { dm: true, tv: true },
        children: renamed(root.children, set![ROOT_ID], 1).0,
        ink: root.ink,
    }
}

fn free_id(taken: &HashSet<NodeId>, next: NodeId) -> (r: NodeId)
    ensures
        r == free_at(taken@, next),
{
    let mut n = next;
    while taken.contains(&n) && n < u64::MAX
        invariant
            free_at(taken@, next) == free_at(taken@, n),
        decreases u64::MAX - n,
    {
        n += 1;
    }
    n
}

fn rename_id(id: NodeId, taken: &mut HashSet<NodeId>, next: &mut NodeId) -> (r: NodeId)
    ensures
        (r, final(taken)@, *final(next)) == rename_one(id, old(taken)@, *old(next)),
{
    if id == ROOT_ID || taken.contains(&id) {
        let n = free_id(taken, *next);
        taken.insert(n);
        *next = n;
        n
    } else {
        taken.insert(id);
        id
    }
}

fn rename_list(nodes: Vec<Node>, taken: &mut HashSet<NodeId>, next: &mut NodeId) -> (r: Vec<Node>)
    ensures
        (nodes_view(&r), final(taken)@, *final(next)) == renamed(nodes_view(&nodes), old(taken)@, *old(next)),
    decreases nodes_view(&nodes),
{
    let ghost whole = nodes_view(&nodes);
    let ghost t0 = taken@;
    let ghost n0 = *next;
    let mut rest = nodes;
    let mut out: Vec<Node> = Vec::new();
    let ghost mut i: int = 0;
    while rest.len() > 0
        invariant
            0 <= i <= whole.len(),
            whole == nodes_view(&nodes),
            nodes_view(&rest) == whole.subrange(i, whole.len() as int),
            renamed(whole, t0, n0) == (
                nodes_view(&out) + renamed(nodes_view(&rest), taken@, *next).0,
                renamed(nodes_view(&rest), taken@, *next).1,
                renamed(nodes_view(&rest), taken@, *next).2,
            ),
        decreases rest.len(),
    {
        let ghost s = nodes_view(&rest);
        let ghost tail = rest@.drop_first();
        let ghost t_before = taken@;
        let ghost n_before = *next;
        let node = rest.remove(0);
        proof {
            assert(rest@ =~= tail);
            lemma_view_nodes(tail);
            assert(view_nodes(tail) =~= s.drop_first());
            assert(s[0] == node@);
            assert(whole[i] == s[0]);
        }
        let id = rename_id(node.id(), taken, next);
        let renamed_node = match node {
            Node::Group(group) => {
                let ghost gv = group@;
                let Group { id: _, name, shown, children, ink } = group;
                proof {
                    assert(whole[i] == NodeView::Group(gv));
                    assert(gv.children == nodes_view(&children));
                    assert(decreases_to!(whole => whole[i]));
                    assert(decreases_to!(whole => nodes_view(&children)));
                }
                let children = rename_list(children, taken, next);
                Node::Group(Group { id, name, shown, children, ink })
            },
            Node::Asset(leaf) => Node::Asset(Leaf { id, shown: leaf.shown }),
            Node::Stroke(leaf) => Node::Stroke(Leaf { id, shown: leaf.shown }),
        };
        let ghost before = out@;
        out.push(renamed_node);
        proof {
            i = i + 1;
            assert(nodes_view(&rest) =~= whole.subrange(i, whole.len() as int));
        }
        proof {
            lemma_view_nodes_ext(out@, view_nodes(before).push(renamed_node@));
            let r = renamed(s, t_before, n_before);
            let r2 = renamed(s.drop_first(), taken@, *next);
            assert(r.0 =~= seq![renamed_node@] + r2.0);
            assert(nodes_view(&out) + r2.0 =~= view_nodes(before) + r.0);
        }
    }
    proof {
        assert(nodes_view(&rest) =~= Seq::<NodeView>::empty());
        assert(nodes_view(&out) + Seq::<NodeView>::empty() =~= nodes_view(&out));
    }
    out
}

impl Scene {
    /// The same scene, with a root that follows the rules and no id twice.
    ///
    /// The root takes its id, its name and both screens back. A node that
    /// holds the root's id, or an id a node before it holds, takes the
    /// first id from one on that no node before it took.
    pub fn repaired(self) -> (r: Scene)
        ensures
            r@ == repaired_view(self@),
    {
        let Scene { root } = self;
        let Group { id: _, name: _, shown: _, children, ink } = root;
        let mut taken: HashSet<NodeId> = HashSet::new();
        taken.insert(ROOT_ID);
        let mut next: NodeId = 1;
        proof {
            assert(taken@ =~= set![ROOT_ID]);
        }
        let children = rename_list(children, &mut taken, &mut next);
        let name = ROOT_NAME.to_string();
        Scene { root: Group { id: ROOT_ID, name, shown: Shown::both(), children, ink } }
    }
}

} // verus!
