//! Walking the tree: where a node sits, and what holds it.
//!
//! Every search here goes from the bottom of a list to the top, and into a
//! group as soon as it meets one, so the node it finds is the first in the
//! order the tree lists its nodes.

use vstd::prelude::*;

use crate::scene::model::{
    Group, GroupView, Node, NodeId, NodeView, ROOT_ID, id_of, lemma_view_nodes, nodes_view,
    view_group, view_node, view_nodes,
};

verus! {

broadcast use lemma_view_nodes;

/// The first node of this id at place `k` of `s` or after, a group's own
/// nodes before the places after it.
pub open spec fn find_at(s: Seq<NodeView>, id: NodeId, k: int) -> Option<NodeView>
    decreases s, s.len() - k,
{
    if k < 0 || k >= s.len() {
        None
    } else if id_of(s[k]) == id {
        Some(s[k])
    } else {
        match s[k] {
            NodeView::Group(g) => match find_at(g.children, id, 0) {
                Some(found) => Some(found),
                None => find_at(s, id, k + 1),
            },
            _ => find_at(s, id, k + 1),
        }
    }
}

/// The first place at `k` or after that holds a node of this id.
pub open spec fn position_at(s: Seq<NodeView>, id: NodeId, k: int) -> Option<int>
    decreases s.len() - k,
{
    if k < 0 || k >= s.len() {
        None
    } else if id_of(s[k]) == id {
        Some(k)
    } else {
        position_at(s, id, k + 1)
    }
}

/// A place [`position_at`] gives holds the id, and none before it does.
pub proof fn lemma_position(s: Seq<NodeView>, id: NodeId, k: int)
    ensures
        position_at(s, id, k) matches Some(p) ==> {
            &&& 0 <= k <= p < s.len()
            &&& id_of(s[p]) == id
            &&& forall|j: int| k <= j < p ==> id_of(#[trigger] s[j]) != id
        },
        position_at(s, id, k) is None ==> forall|j: int| 0 <= k <= j < s.len() ==> id_of(#[trigger] s[j]) != id,
    decreases s.len() - k,
{
    if 0 <= k < s.len() && id_of(s[k]) != id {
        lemma_position(s, id, k + 1);
    }
}

/// The group that holds a node of this id, and its place there.
///
/// A group's own list comes first; then each group in it, in order.
pub open spec fn parent_in(g: GroupView, id: NodeId) -> Option<(NodeId, int)>
    decreases g, 0int,
{
    match position_at(g.children, id, 0) {
        Some(place) => Some((g.id, place)),
        None => parent_among(g.children, id, 0),
    }
}

/// [`parent_in`] over the groups at place `k` of `s` or after.
pub open spec fn parent_among(s: Seq<NodeView>, id: NodeId, k: int) -> Option<(NodeId, int)>
    decreases s, s.len() - k,
{
    if k < 0 || k >= s.len() {
        None
    } else {
        match s[k] {
            NodeView::Group(g) => match parent_in(g, id) {
                Some(found) => Some(found),
                None => parent_among(s, id, k + 1),
            },
            _ => parent_among(s, id, k + 1),
        }
    }
}

/// The places from the top list down to the first node of this id.
pub open spec fn path_at(s: Seq<NodeView>, id: NodeId, k: int) -> Option<Seq<usize>>
    decreases s, s.len() - k,
{
    if k < 0 || k >= s.len() {
        None
    } else if id_of(s[k]) == id {
        Some(seq![k as usize])
    } else {
        match s[k] {
            NodeView::Group(g) => match path_at(g.children, id, 0) {
                Some(path) => Some(seq![k as usize] + path),
                None => path_at(s, id, k + 1),
            },
            _ => path_at(s, id, k + 1),
        }
    }
}

/// What a group of this id holds, the root included.
pub open spec fn children_in(root: GroupView, id: NodeId) -> Option<Seq<NodeView>> {
    if id == ROOT_ID {
        Some(root.children)
    } else {
        match find_at(root.children, id, 0) {
            Some(NodeView::Group(g)) => Some(g.children),
            _ => None,
        }
    }
}

/// How many nodes a list holds, however deep.
pub open spec fn count_at(s: Seq<NodeView>, k: int) -> nat
    decreases s, s.len() - k,
{
    if k < 0 || k >= s.len() {
        0
    } else {
        1 + count_at(s, k + 1) + match s[k] {
            NodeView::Group(g) => count_at(g.children, 0),
            _ => 0,
        }
    }
}

/// The largest id a list holds, however deep, or `floor` when none is larger.
pub open spec fn highest_at(s: Seq<NodeView>, k: int, floor: nat) -> nat
    decreases s, s.len() - k,
{
    if k < 0 || k >= s.len() {
        floor
    } else {
        let here = if id_of(s[k]) > floor { id_of(s[k]) as nat } else { floor };
        let inside = match s[k] {
            NodeView::Group(g) => highest_at(g.children, 0, here),
            _ => here,
        };
        highest_at(s, k + 1, inside)
    }
}

/// The chain of groups above a node, nearest first, at most `fuel` long.
pub open spec fn chain(root: GroupView, id: NodeId, fuel: nat) -> Seq<NodeId>
    decreases fuel,
{
    if fuel == 0 {
        Seq::empty()
    } else {
        match parent_in(root, id) {
            None => Seq::empty(),
            Some((parent, _)) => if parent == ROOT_ID {
                seq![parent]
            } else {
                seq![parent] + chain(root, parent, (fuel - 1) as nat)
            },
        }
    }
}

/// The first node of this id in a list, however deep.
pub fn find_among(nodes: &Vec<Node>, id: NodeId) -> (r: Option<&Node>)
    ensures
        match r {
            Some(node) => find_at(nodes_view(nodes), id, 0) == Some(node@),
            None => find_at(nodes_view(nodes), id, 0) is None,
        },
    decreases nodes,
{
    let ghost s = nodes_view(nodes);
    let mut i: usize = 0;
    while i < nodes.len()
        invariant
            i <= nodes.len() == s.len(),
            s == nodes_view(nodes),
            find_at(s, id, 0) == find_at(s, id, i as int),
        decreases nodes.len() - i,
    {
        let node = &nodes[i];
        if node.id() == id {
            return Some(node);
        }
        if let Node::Group(group) = node {
            if let Some(found) = find_among(&group.children, id) {
                return Some(found);
            }
        }
        i += 1;
    }
    None
}

/// The first place in a list that holds a node of this id.
pub fn position(nodes: &Vec<Node>, id: NodeId) -> (r: Option<usize>)
    ensures
        match r {
            Some(place) => position_at(nodes_view(nodes), id, 0) == Some(place as int),
            None => position_at(nodes_view(nodes), id, 0) is None,
        },
{
    let ghost s = nodes_view(nodes);
    let mut i: usize = 0;
    while i < nodes.len()
        invariant
            i <= nodes.len() == s.len(),
            s == nodes_view(nodes),
            position_at(s, id, 0) == position_at(s, id, i as int),
        decreases nodes.len() - i,
    {
        if nodes[i].id() == id {
            return Some(i);
        }
        i += 1;
    }
    None
}

/// The group that holds a node of this id, and its place there.
pub fn parent_in_group(group: &Group, id: NodeId) -> (r: Option<(NodeId, usize)>)
    ensures
        match r {
            Some((parent, place)) => parent_in(group@, id) == Some((parent, place as int)),
            None => parent_in(group@, id) is None,
        },
    decreases group,
{
    if let Some(place) = position(&group.children, id) {
        return Some((group.id, place));
    }
    let ghost s = nodes_view(&group.children);
    let mut i: usize = 0;
    while i < group.children.len()
        invariant
            i <= group.children.len() == s.len(),
            s == nodes_view(&group.children),
            parent_in(group@, id) == parent_among(s, id, i as int),
        decreases group.children.len() - i,
    {
        if let Node::Group(inside) = &group.children[i] {
            if let Some(found) = parent_in_group(inside, id) {
                return Some(found);
            }
        }
        i += 1;
    }
    None
}

/// The places from the top of a list down to the first node of this id.
pub fn path_among(nodes: &Vec<Node>, id: NodeId) -> (r: Option<Vec<usize>>)
    ensures
        match r {
            Some(path) => path_at(nodes_view(nodes), id, 0) == Some(path@),
            None => path_at(nodes_view(nodes), id, 0) is None,
        },
    decreases nodes,
{
    let ghost s = nodes_view(nodes);
    let mut i: usize = 0;
    while i < nodes.len()
        invariant
            i <= nodes.len() == s.len(),
            s == nodes_view(nodes),
            path_at(s, id, 0) == path_at(s, id, i as int),
        decreases nodes.len() - i,
    {
        let node = &nodes[i];
        if node.id() == id {
            let mut path = Vec::new();
            path.push(i);
            proof {
                assert(path@ =~= seq![i]);
            }
            return Some(path);
        }
        if let Node::Group(group) = node {
            if let Some(inner) = path_among(&group.children, id) {
                let mut path = Vec::new();
                path.push(i);
                let mut j: usize = 0;
                while j < inner.len()
                    invariant
                        j <= inner.len(),
                        path@ == seq![i] + inner@.subrange(0, j as int),
                    decreases inner.len() - j,
                {
                    path.push(inner[j]);
                    proof {
                        assert(inner@.subrange(0, j + 1) == inner@.subrange(0, j as int).push(inner@[j as int]));
                    }
                    j += 1;
                }
                proof {
                    assert(inner@.subrange(0, j as int) == inner@);
                }
                return Some(path);
            }
        }
        i += 1;
    }
    None
}

/// How many nodes a list holds, however deep, stopped at `u64::MAX`.
pub fn count_nodes(nodes: &Vec<Node>) -> (r: u64)
    ensures
        r == if count_at(nodes_view(nodes), 0) <= u64::MAX {
            count_at(nodes_view(nodes), 0)
        } else {
            u64::MAX as nat
        },
    decreases nodes,
{
    let ghost s = nodes_view(nodes);
    let mut i: usize = nodes.len();
    let mut total: u64 = 0;
    proof {
        lemma_count_split(s, s.len() as int);
    }
    while i > 0
        invariant
            i <= nodes.len() == s.len(),
            s == nodes_view(nodes),
            total == if count_at(s, i as int) <= u64::MAX { count_at(s, i as int) } else { u64::MAX as nat },
            count_at(s, 0) == count_at(s, i as int) + count_before(s, i as int),
        decreases i,
    {
        i -= 1;
        proof {
            lemma_count_before_step(s, i as int);
        }
        let inner = match &nodes[i] {
            Node::Group(group) => count_nodes(&group.children),
            _ => 0,
        };
        total = total.saturating_add(1).saturating_add(inner);
    }
    total
}

/// How many nodes the places of `s` before `k` hold, however deep.
pub open spec fn count_before(s: Seq<NodeView>, k: int) -> nat
    decreases k,
{
    if k <= 0 || k > s.len() {
        0
    } else {
        count_before(s, k - 1) + 1 + match s[k - 1] {
            NodeView::Group(g) => count_at(g.children, 0),
            _ => 0,
        }
    }
}

proof fn lemma_count_before_step(s: Seq<NodeView>, k: int)
    requires
        0 <= k < s.len(),
    ensures
        count_at(s, k) == count_at(s, k + 1) + 1 + match s[k] {
            NodeView::Group(g) => count_at(g.children, 0),
            _ => 0,
        },
        count_before(s, k + 1) == count_before(s, k) + 1 + match s[k] {
            NodeView::Group(g) => count_at(g.children, 0),
            _ => 0,
        },
{
}

proof fn lemma_count_split(s: Seq<NodeView>, k: int)
    requires
        0 <= k <= s.len(),
    ensures
        count_at(s, 0) == count_at(s, k) + count_before(s, k),
    decreases k,
{
    if k > 0 {
        lemma_count_split(s, k - 1);
        lemma_count_before_step(s, k - 1);
    }
}

} // verus!
