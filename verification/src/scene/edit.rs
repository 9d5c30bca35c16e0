//! The two moves every edit of the tree is made of: a group exchanged for
//! another value, and a node taken out of the list that holds it.

use vstd::prelude::*;

use crate::scene::model::{
    Group, GroupView, Node, NodeId, NodeView, lemma_view_nodes, lemma_view_nodes_ext, nodes_view,
    view_group, view_node, view_nodes,
};
use crate::scene::tree::{lemma_position, position, position_at};

verus! {

broadcast use lemma_view_nodes;

/// The first group of this id at place `k` of `s` or after, however deep.
pub open spec fn first_group_at(s: Seq<NodeView>, id: NodeId, k: int) -> Option<GroupView>
    decreases s, s.len() - k,
{
    if k < 0 || k >= s.len() {
        None
    } else {
        match s[k] {
            NodeView::Group(g) => if g.id == id {
                Some(g)
            } else {
                match first_group_at(g.children, id, 0) {
                    Some(found) => Some(found),
                    None => first_group_at(s, id, k + 1),
                }
            },
            _ => first_group_at(s, id, k + 1),
        }
    }
}

/// `s` with the group [`first_group_at`] finds put as `new`.
pub open spec fn put_group_at(s: Seq<NodeView>, id: NodeId, new: GroupView, k: int) -> Seq<NodeView>
    decreases s, s.len() - k,
{
    if k < 0 || k >= s.len() {
        s
    } else {
        match s[k] {
            NodeView::Group(g) => if g.id == id {
                s.update(k, NodeView::Group(new))
            } else {
                match first_group_at(g.children, id, 0) {
                    Some(_) => s.update(
                        k,
                        NodeView::Group(
                            GroupView { children: put_group_at(g.children, id, new, 0), ..g },
                        ),
                    ),
                    None => put_group_at(s, id, new, k + 1),
                }
            },
            _ => put_group_at(s, id, new, k + 1),
        }
    }
}

/// A group with another list of children.
pub open spec fn with_children(g: GroupView, children: Seq<NodeView>) -> GroupView {
    GroupView { children, ..g }
}

/// The tree with a node on top of the group an edit of `parent` reaches.
pub open spec fn pushed_into(root: GroupView, parent: NodeId, node: NodeView) -> GroupView {
    put_group(root, parent, with_children(group_of(root, parent)->0, group_of(root, parent)->0.children.push(node)))
}

/// The group a group edit reaches: the root for its id, else the first
/// group of that id under it.
pub open spec fn group_of(root: GroupView, id: NodeId) -> Option<GroupView> {
    if id == crate::scene::model::ROOT_ID {
        Some(root)
    } else {
        first_group_at(root.children, id, 0)
    }
}

/// The tree with the group [`group_of`] reaches put as `new`.
pub open spec fn put_group(root: GroupView, id: NodeId, new: GroupView) -> GroupView {
    if id == crate::scene::model::ROOT_ID {
        new
    } else {
        GroupView { children: put_group_at(root.children, id, new, 0), ..root }
    }
}

/// A put keeps the length of a list, and every place before `k`.
pub proof fn lemma_put_frame(s: Seq<NodeView>, id: NodeId, new: GroupView, k: int)
    ensures
        put_group_at(s, id, new, k).len() == s.len(),
        forall|j: int| 0 <= j < k && j < s.len() ==> #[trigger] put_group_at(s, id, new, k)[j] == s[j],
    decreases s.len() - k,
{
    if 0 <= k < s.len() {
        lemma_put_frame(s, id, new, k + 1);
    }
}

/// A group a search finds carries the id it searched for.
pub proof fn lemma_first_group_id(s: Seq<NodeView>, id: NodeId, k: int)
    ensures
        first_group_at(s, id, k) matches Some(g) ==> g.id == id,
    decreases s, s.len() - k,
{
    if 0 <= k < s.len() {
        match s[k] {
            NodeView::Group(g) => {
                lemma_first_group_id(g.children, id, 0);
                lemma_first_group_id(s, id, k + 1);
            },
            _ => {
                lemma_first_group_id(s, id, k + 1);
            },
        }
    }
}

/// A group put in the place of one of its own id is the one a search finds
/// next, and a second put there writes over the first.
pub proof fn lemma_put_at(s: Seq<NodeView>, id: NodeId, a: GroupView, b: GroupView, k: int)
    requires
        a.id == id,
        first_group_at(s, id, k) is Some,
    ensures
        first_group_at(put_group_at(s, id, a, k), id, k) == Some(a),
        put_group_at(put_group_at(s, id, a, k), id, b, k) == put_group_at(s, id, b, k),
    decreases s, s.len() - k,
{
    let t = put_group_at(s, id, a, k);
    assert(0 <= k < s.len());
    lemma_put_frame(s, id, a, k);
    lemma_put_frame(s, id, a, k + 1);
    match s[k] {
        NodeView::Group(g) => {
            if g.id == id {
                assert(t[k] == NodeView::Group(a));
                assert(t.update(k, NodeView::Group(b)) =~= s.update(k, NodeView::Group(b)));
            } else if first_group_at(g.children, id, 0) is Some {
                lemma_put_at(g.children, id, a, b, 0);
                let inner = put_group_at(g.children, id, a, 0);
                assert(t[k] == NodeView::Group(GroupView { children: inner, ..g }));
                assert(t.update(k, NodeView::Group(GroupView { children: put_group_at(inner, id, b, 0), ..g }))
                    =~= s.update(k, NodeView::Group(GroupView { children: put_group_at(g.children, id, b, 0), ..g })));
            } else {
                lemma_put_at(s, id, a, b, k + 1);
            }
        },
        _ => {
            lemma_put_at(s, id, a, b, k + 1);
        },
    }
}

/// [`lemma_put_at`] for the group an edit of the tree reaches.
pub proof fn lemma_put_twice(root: GroupView, id: NodeId, a: GroupView, b: GroupView)
    requires
        id != crate::scene::model::ROOT_ID ==> a.id == id,
        group_of(root, id) is Some,
    ensures
        group_of(root, id)->0.id == id || id == crate::scene::model::ROOT_ID,
        group_of(put_group(root, id, a), id) == Some(a),
        put_group(put_group(root, id, a), id, b) == put_group(root, id, b),
{
    if id != crate::scene::model::ROOT_ID {
        lemma_put_at(root.children, id, a, b, 0);
        lemma_first_group_id(root.children, id, 0);
    }
}

/// Exchanges the first group of this id in a list for `group`.
///
/// Returns whether the list held such a group. When it did not, both stay.
pub fn exchange_among(nodes: &mut Vec<Node>, id: NodeId, group: &mut Group) -> (found: bool)
    ensures
        found == (first_group_at(nodes_view(old(nodes)), id, 0) is Some),
        found ==> final(group)@ == first_group_at(nodes_view(old(nodes)), id, 0)->0,
        found ==> nodes_view(final(nodes)) == put_group_at(nodes_view(old(nodes)), id, old(group)@, 0),
        !found ==> nodes_view(final(nodes)) == nodes_view(old(nodes)) && final(group)@ == old(group)@,
    decreases nodes_view(old(nodes)),
{
    let ghost s = nodes_view(nodes);
    let ghost new = group@;
    let mut i: usize = 0;
    while i < nodes.len()
        invariant
            i <= nodes.len() == s.len(),
            s == nodes_view(nodes),
            s == nodes_view(old(nodes)),
            group@ == new,
            new == old(group)@,
            first_group_at(s, id, 0) == first_group_at(s, id, i as int),
            put_group_at(s, id, new, 0) == put_group_at(s, id, new, i as int),
        decreases nodes.len() - i,
    {
        let ghost before = nodes@;
        match &mut nodes[i] {
            Node::Group(inside) => {
                if inside.id == id {
                    std::mem::swap(inside, group);
                    proof {
                        lemma_view_nodes_ext(nodes@, s.update(i as int, NodeView::Group(new)));
                    }
                    return true;
                }
                let ghost was = inside@;
                let ghost inside_children = nodes_view(&inside.children);
                assert(inside_children == was.children);
                let deep = exchange_among(&mut inside.children, id, group);
                if deep {
                    proof {
                        let changed = GroupView { children: put_group_at(was.children, id, new, 0), ..was };
                        assert(inside@ == changed);
                        lemma_view_nodes_ext(nodes@, s.update(i as int, NodeView::Group(changed)));
                    }
                    return true;
                }
                proof {
                    assert(inside@ == was);
                }
            },
            _ => {},
        }
        proof {
            lemma_view_nodes_ext(nodes@, s);
        }
        i += 1;
    }
    false
}

/// The tree with the first node of this id taken out of its list, and the
/// node it took.
///
/// A group's own list comes first; then each group in it, in order.
pub open spec fn take_in(g: GroupView, id: NodeId) -> (GroupView, Option<NodeView>)
    decreases g, 0int,
{
    match position_at(g.children, id, 0) {
        Some(place) => (GroupView { children: g.children.remove(place), ..g }, Some(g.children[place])),
        None => {
            let (children, taken) = take_among(g.children, id, 0);
            (GroupView { children, ..g }, taken)
        },
    }
}

/// [`take_in`] over the groups at place `k` of `s` or after.
pub open spec fn take_among(s: Seq<NodeView>, id: NodeId, k: int) -> (Seq<NodeView>, Option<NodeView>)
    decreases s, s.len() - k,
{
    if k < 0 || k >= s.len() {
        (s, None)
    } else {
        match s[k] {
            NodeView::Group(g) => {
                let (left, taken) = take_in(g, id);
                if taken is Some {
                    (s.update(k, NodeView::Group(left)), taken)
                } else {
                    take_among(s, id, k + 1)
                }
            },
            _ => take_among(s, id, k + 1),
        }
    }
}

/// A search that takes nothing leaves the tree as it stood.
pub proof fn lemma_take_nothing(g: GroupView, id: NodeId)
    ensures
        take_in(g, id).1 is None ==> take_in(g, id).0 == g,
    decreases g, 0int,
{
    if position_at(g.children, id, 0) is None {
        lemma_take_among_nothing(g.children, id, 0);
        assert(take_in(g, id).1 is None ==> take_in(g, id).0 =~= g);
    }
}

/// A search that takes nothing leaves the list as it stood.
pub proof fn lemma_take_among_nothing(s: Seq<NodeView>, id: NodeId, k: int)
    ensures
        take_among(s, id, k).1 is None ==> take_among(s, id, k).0 == s,
    decreases s, s.len() - k,
{
    if 0 <= k < s.len() {
        match s[k] {
            NodeView::Group(g) => {
                lemma_take_nothing(g, id);
                lemma_take_among_nothing(s, id, k + 1);
            },
            _ => {
                lemma_take_among_nothing(s, id, k + 1);
            },
        }
    }
}

/// Takes the first node of this id out of the list that holds it.
pub fn take_from(group: &mut Group, id: NodeId) -> (r: Option<Node>)
    ensures
        final(group)@ == take_in(old(group)@, id).0,
        match r {
            Some(node) => take_in(old(group)@, id).1 == Some(node@),
            None => take_in(old(group)@, id).1 is None,
        },
    decreases old(group)@,
{
    let ghost g = group@;
    if let Some(place) = position(&group.children, id) {
        proof {
            lemma_position(g.children, id, 0);
        }
        let node = group.children.remove(place);
        proof {
            lemma_view_nodes_ext(group.children@, g.children.remove(place as int));
            assert(group@ =~= take_in(g, id).0);
        }
        return Some(node);
    }
    let ghost s = g.children;
    let mut i: usize = 0;
    while i < group.children.len()
        invariant
            i <= group.children.len() == s.len(),
            group@ == g,
            g == old(group)@,
            s == g.children,
            position_at(s, id, 0) is None,
            take_among(s, id, 0) == take_among(s, id, i as int),
        decreases group.children.len() - i,
    {
        let ghost before = group.children@;
        proof {
            assert(s == view_nodes(before));
            assert(s[i as int] == view_node(before[i as int]));
        }
        match &mut group.children[i] {
            Node::Group(inside) => {
                let ghost was = inside@;
                proof {
                    assert(before[i as int] == Node::Group(*inside));
                    assert(s[i as int] == NodeView::Group(was));
                    assert(decreases_to!(g => g.children));
                    assert(decreases_to!(g.children => g.children[i as int]));
                    assert(decreases_to!(g.children[i as int] => was));
                }
                let taken = take_from(inside, id);
                if taken.is_some() {
                    proof {
                        assert(forall|j: int| 0 <= j < s.len() && j != i ==> group.children@[j] == before[j]);
                        lemma_view_nodes_ext(
                            group.children@,
                            s.update(i as int, NodeView::Group(take_in(was, id).0)),
                        );
                        assert(group@ =~= take_in(g, id).0);
                    }
                    return taken;
                }
                proof {
                    lemma_take_nothing(was, id);
                }
            },
            _ => {},
        }
        proof {
            lemma_view_nodes_ext(group.children@, s);
            assert(group@ =~= g);
        }
        i += 1;
    }
    proof {
        assert(take_among(s, id, i as int) == (s, Option::<NodeView>::None));
        assert(group@ =~= take_in(g, id).0);
    }
    None
}

} // verus!
