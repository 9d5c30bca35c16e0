//! What the ids of a scene promise: after a repair no two nodes share an
//! id and no node holds the root's, and a new id is one no node holds.

use vstd::prelude::*;

use crate::scene::model::{GroupView, Node, NodeId, NodeView, ROOT_ID, id_of, lemma_view_nodes, nodes_view, view_node};
use crate::scene::Scene;
use crate::scene::repair::{free_at, rename_one, renamed, repaired_view};
use crate::scene::tree::highest_at;

verus! {

/// The ids of a list of nodes, each parent before its children.
pub open spec fn ids_in(s: Seq<NodeView>) -> Seq<NodeId>
    decreases s,
{
    if s.len() == 0 {
        Seq::empty()
    } else {
        let inner = match s[0] {
            NodeView::Group(g) => ids_in(g.children),
            _ => Seq::empty(),
        };
        seq![id_of(s[0])] + inner + ids_in(s.drop_first())
    }
}

/// What kind each node of a list is, each parent before its children: 0
/// for a group, 1 for a map, 2 for a drawing.
pub open spec fn kinds_in(s: Seq<NodeView>) -> Seq<nat>
    decreases s,
{
    if s.len() == 0 {
        Seq::empty()
    } else {
        let (kind, inner): (nat, Seq<nat>) = match s[0] {
            NodeView::Group(g) => (0, kinds_in(g.children)),
            NodeView::Asset(_) => (1, Seq::empty()),
            NodeView::Stroke(_) => (2, Seq::empty()),
        };
        seq![kind] + inner + kinds_in(s.drop_first())
    }
}

/// The ids of the nodes of a scene, each parent before its children.
pub fn ids_in_order(scene: &Scene) -> (r: Vec<NodeId>)
    ensures
        r@ == ids_in(scene@.children),
{
    let mut out: Vec<NodeId> = Vec::new();
    push_ids(&scene.root.children, &mut out);
    proof {
        assert(out@ =~= ids_in(scene@.children));
    }
    out
}

fn push_ids(nodes: &Vec<Node>, out: &mut Vec<NodeId>)
    ensures
        final(out)@ == old(out)@ + ids_in(nodes_view(nodes)),
    decreases nodes,
{
    broadcast use lemma_view_nodes;
    let ghost s = nodes_view(nodes);
    let ghost start = out@;
    let mut i: usize = 0;
    proof {
        assert(s.subrange(0, s.len() as int) =~= s);
    }
    while i < nodes.len()
        invariant
            i <= nodes.len() == s.len(),
            s == nodes_view(nodes),
            start + ids_in(s) == out@ + ids_in(s.subrange(i as int, s.len() as int)),
        decreases nodes.len() - i,
    {
        let ghost before = out@;
        let ghost t = s.subrange(i as int, s.len() as int);
        proof {
            assert(t[0] == s[i as int]);
            assert(t.drop_first() =~= s.subrange(i + 1, s.len() as int));
        }
        let node = &nodes[i];
        proof {
            lemma_view_nodes(nodes@);
            assert(*node == nodes@[i as int]);
            assert(s[i as int] == view_node(nodes@[i as int]));
        }
        out.push(node.id());
        let ghost pushed = out@;
        match node {
            Node::Group(group) => {
                push_ids(&group.children, out);
            },
            _ => {},
        }
        proof {
            let inner = match s[i as int] {
                NodeView::Group(g) => ids_in(g.children),
                _ => Seq::empty(),
            };
            assert(pushed =~= before + seq![id_of(s[i as int])]);
            assert(ids_in(t) == seq![id_of(s[i as int])] + inner + ids_in(t.drop_first()));
            assert(out@ =~= before + seq![id_of(s[i as int])] + inner);
            assert(before + ids_in(t) =~= out@ + ids_in(s.subrange(i + 1, s.len() as int)));
        }
        i += 1;
    }
    proof {
        assert(s.subrange(0, s.len() as int) =~= s);
        assert(ids_in(s.subrange(i as int, s.len() as int)) =~= Seq::<NodeId>::empty());
        assert(out@ + Seq::<NodeId>::empty() =~= out@);
    }
}

/// A repair of a list changes ids alone: each node keeps its kind and its
/// place.
proof fn lemma_renamed_keeps_kinds(s: Seq<NodeView>, taken: Set<NodeId>, next: NodeId)
    ensures
        kinds_in(renamed(s, taken, next).0) == kinds_in(s),
    decreases s,
{
    if s.len() > 0 {
        let first = s[0];
        let (id, t1, n1) = rename_one(id_of(first), taken, next);
        let (node, t2, n2) = match first {
            NodeView::Group(g) => {
                let (children, t, n) = renamed(g.children, t1, n1);
                (NodeView::Group(GroupView { id, children, ..g }), t, n)
            },
            _ => (crate::scene::repair::with_id(first, id), t1, n1),
        };
        match first {
            NodeView::Group(g) => {
                assert(decreases_to!(s => g.children)) by {
                    assert(decreases_to!(s => s[0]));
                }
                lemma_renamed_keeps_kinds(g.children, t1, n1);
            },
            _ => {},
        }
        lemma_renamed_keeps_kinds(s.drop_first(), t2, n2);
        let out = seq![node] + renamed(s.drop_first(), t2, n2).0;
        assert(renamed(s, taken, next).0 == out);
        assert(out[0] == node);
        assert(out.drop_first() =~= renamed(s.drop_first(), t2, n2).0);
    }
}

/// A repair changes ids alone: every node keeps its kind and its place, so
/// the nodes of the repaired tree, each parent before its children, stand
/// one for one with those of the tree that was read.
pub proof fn lemma_repair_keeps_places(root: GroupView)
    ensures
        kinds_in(repaired_view(root).children) == kinds_in(root.children),
{
    lemma_renamed_keeps_kinds(root.children, set![ROOT_ID], 1);
}

/// The ids a repair has handed out so far, and where its search goes on:
/// the root's id is among them, and so is every id from one up to the
/// search point.
pub open spec fn ready(taken: Set<NodeId>, next: NodeId) -> bool {
    &&& taken.finite()
    &&& taken.contains(ROOT_ID)
    &&& 1 <= next
    &&& forall|j: NodeId| 1 <= j < next ==> #[trigger] taken.contains(j)
}

/// The search for a free id passes only ids that are taken, and stops at
/// a free one or at the largest id.
proof fn lemma_free_at(taken: Set<NodeId>, n: NodeId)
    ensures
        n <= free_at(taken, n),
        forall|j: NodeId| n <= j < free_at(taken, n) ==> #[trigger] taken.contains(j),
        !taken.contains(free_at(taken, n)) || free_at(taken, n) == u64::MAX,
    decreases u64::MAX - n,
{
    if taken.contains(n) && n < u64::MAX {
        lemma_free_at(taken, (n + 1) as NodeId);
    }
}

/// A set that holds every id from one up to `k` holds at least `k` ids.
proof fn lemma_full_range(taken: Set<NodeId>, k: NodeId)
    requires
        taken.finite(),
        forall|j: NodeId| 1 <= j <= k ==> #[trigger] taken.contains(j),
    ensures
        taken.len() >= k,
    decreases k,
{
    if k > 0 {
        let rest = taken.remove(k);
        assert forall|j: NodeId| 1 <= j <= (k - 1) as NodeId implies #[trigger] rest.contains(j) by {
            assert(taken.contains(j));
        }
        lemma_full_range(rest, (k - 1) as NodeId);
    }
}

/// One node's id in a repair is free before it, and the repair stays
/// ready after it.
proof fn lemma_rename_one(id: NodeId, taken: Set<NodeId>, next: NodeId)
    requires
        ready(taken, next),
        taken.len() + 1 < u64::MAX,
    ensures
        !taken.contains(rename_one(id, taken, next).0),
        rename_one(id, taken, next).1 == taken.insert(rename_one(id, taken, next).0),
        ready(rename_one(id, taken, next).1, rename_one(id, taken, next).2),
{
    if id == ROOT_ID || taken.contains(id) {
        let n = free_at(taken, next);
        lemma_free_at(taken, next);
        if taken.contains(n) {
            assert forall|j: NodeId| 1 <= j <= u64::MAX implies #[trigger] taken.contains(j) by {
                if j < next {
                } else if j < n {
                } else {
                    assert(j == n);
                }
            }
            lemma_full_range(taken, u64::MAX);
        }
        let t = taken.insert(n);
        assert forall|j: NodeId| 1 <= j < n implies #[trigger] t.contains(j) by {
            if j < next {
                assert(taken.contains(j));
            } else {
                assert(taken.contains(j));
            }
        }
    }
}

/// A repair of a list gives each node an id that no node before the list
/// took and no other node of the list holds, and stays ready.
proof fn lemma_renamed_apart(s: Seq<NodeView>, taken: Set<NodeId>, next: NodeId)
    requires
        ready(taken, next),
        taken.len() + ids_in(s).len() < u64::MAX,
    ensures
        ready(renamed(s, taken, next).1, renamed(s, taken, next).2),
        ids_in(renamed(s, taken, next).0).no_duplicates(),
        ids_in(renamed(s, taken, next).0).len() == ids_in(s).len(),
        forall|i: int| 0 <= i < ids_in(renamed(s, taken, next).0).len()
            ==> !taken.contains(#[trigger] ids_in(renamed(s, taken, next).0)[i]),
        forall|x: NodeId| #[trigger] renamed(s, taken, next).1.contains(x)
            <==> taken.contains(x) || ids_in(renamed(s, taken, next).0).contains(x),
        renamed(s, taken, next).1.len() == taken.len() + ids_in(s).len(),
    decreases s,
{
    if s.len() == 0 {
        assert(renamed(s, taken, next).0 =~= Seq::<NodeView>::empty());
        assert(ids_in(Seq::<NodeView>::empty()) =~= Seq::<NodeId>::empty());
    } else {
        let first = s[0];
        let rest = s.drop_first();
        let inner_in = match first {
            NodeView::Group(g) => ids_in(g.children),
            _ => Seq::empty(),
        };
        assert(ids_in(s) == seq![id_of(first)] + inner_in + ids_in(rest));
        let (id, t1, n1) = rename_one(id_of(first), taken, next);
        lemma_rename_one(id_of(first), taken, next);
        assert(t1.len() == taken.len() + 1);
        let (node, t2, n2) = match first {
            NodeView::Group(g) => {
                let (children, t, n) = renamed(g.children, t1, n1);
                (NodeView::Group(GroupView { id, children, ..g }), t, n)
            },
            _ => (crate::scene::repair::with_id(first, id), t1, n1),
        };
        let inner_out = match node {
            NodeView::Group(g) => ids_in(g.children),
            _ => Seq::empty(),
        };
        match first {
            NodeView::Group(g) => {
                assert(decreases_to!(s => g.children)) by {
                    assert(decreases_to!(s => s[0]));
                }
                lemma_renamed_apart(g.children, t1, n1);
            },
            _ => {
                assert(inner_out =~= Seq::<NodeId>::empty());
                assert(inner_in =~= Seq::<NodeId>::empty());
                assert forall|x: NodeId| #[trigger] t2.contains(x) <==> t1.contains(x) || inner_out.contains(x) by {}
                assert(inner_out.no_duplicates());
            },
        }
        assert(id_of(node) == id);
        assert(ready(t2, n2));
        assert(inner_out.no_duplicates());
        assert(inner_out.len() == inner_in.len());
        assert(t2.len() == t1.len() + inner_in.len());
        assert(forall|x: NodeId| #[trigger] t2.contains(x) <==> t1.contains(x) || inner_out.contains(x));
        let (rest_out, t3, n3) = renamed(rest, t2, n2);
        lemma_renamed_apart(rest, t2, n2);
        let out = seq![node] + rest_out;
        assert(renamed(s, taken, next) == (out, t3, n3));
        assert(out[0] == node);
        assert(out.drop_first() =~= rest_out);
        let ids_out = ids_in(out);
        let ids_rest = ids_in(rest_out);
        assert(ids_out == seq![id] + inner_out + ids_rest);
        let head = seq![id] + inner_out;
        // The ids of the children are free in t1, which holds `id`.
        assert(forall|j: int| 0 <= j < inner_out.len() ==> !t1.contains(#[trigger] inner_out[j]));
        assert(head.no_duplicates()) by {
            assert forall|i: int, j: int| 0 <= i < 1 && 0 <= j < inner_out.len() implies seq![id][i] != inner_out[j] by {
                assert(!t1.contains(inner_out[j]));
            }
            vstd::seq_lib::lemma_no_dup_in_concat(seq![id], inner_out);
        }
        // The ids of the rest are free in t2, which holds the head.
        assert forall|i: int, j: int| 0 <= i < head.len() && 0 <= j < ids_rest.len() implies head[i] != ids_rest[j] by {
            assert(!t2.contains(ids_rest[j]));
            assert(t2.contains(head[i])) by {
                if i == 0 {
                    assert(t1.contains(id));
                } else {
                    assert(inner_out.contains(inner_out[i - 1]));
                }
            }
        }
        vstd::seq_lib::lemma_no_dup_in_concat(head, ids_rest);
        assert forall|i: int| 0 <= i < ids_out.len() implies !taken.contains(#[trigger] ids_out[i]) by {
            if i == 0 {
            } else if i < head.len() {
                assert(ids_out[i] == inner_out[i - 1]);
                assert(!t1.contains(inner_out[i - 1]));
            } else {
                assert(ids_out[i] == ids_rest[i - head.len()]);
                assert(!t2.contains(ids_rest[i - head.len()]));
            }
        }
        assert forall|x: NodeId| #[trigger] t3.contains(x) <==> taken.contains(x) || ids_out.contains(x) by {
            if ids_out.contains(x) {
                let k = choose|k: int| 0 <= k < ids_out.len() && ids_out[k] == x;
                if k == 0 {
                } else if k < head.len() {
                    assert(inner_out[k - 1] == x);
                    assert(inner_out.contains(x));
                } else {
                    assert(ids_rest[k - head.len()] == x);
                    assert(ids_rest.contains(x));
                }
            }
            if t3.contains(x) && !taken.contains(x) {
                if x == id {
                    assert(ids_out[0] == x);
                } else if inner_out.contains(x) {
                    let k = choose|k: int| 0 <= k < inner_out.len() && inner_out[k] == x;
                    assert(ids_out[k + 1] == x);
                } else {
                    assert(ids_rest.contains(x));
                    let k = choose|k: int| 0 <= k < ids_rest.len() && ids_rest[k] == x;
                    assert(ids_out[k + head.len()] == x);
                }
            }
        }
    }
}

/// After a repair no two nodes share an id and no node holds the root's,
/// for a tree of fewer nodes than there are ids.
pub proof fn lemma_repaired_ids_are_apart(root: GroupView)
    requires
        ids_in(root.children).len() + 2 < u64::MAX,
    ensures
        ids_in(repaired_view(root).children).no_duplicates(),
        !ids_in(repaired_view(root).children).contains(ROOT_ID),
{
    let taken = set![ROOT_ID];
    assert(taken.len() == 1);
    lemma_renamed_apart(root.children, taken, 1);
    let out = renamed(root.children, taken, 1).0;
    if ids_in(out).contains(ROOT_ID) {
        let k = choose|k: int| 0 <= k < ids_in(out).len() && ids_in(out)[k] == ROOT_ID;
        assert(!taken.contains(ids_in(out)[k]));
    }
}

/// The highest id from place `k` on is at least `floor` and at least each
/// id there, however deep.
proof fn lemma_highest(s: Seq<NodeView>, k: int, floor: nat)
    requires
        0 <= k <= s.len(),
    ensures
        highest_at(s, k, floor) >= floor,
        forall|i: int| 0 <= i < ids_in(s.subrange(k, s.len() as int)).len()
            ==> #[trigger] ids_in(s.subrange(k, s.len() as int))[i] <= highest_at(s, k, floor),
    decreases s, s.len() - k,
{
    let t = s.subrange(k, s.len() as int);
    if k == s.len() {
        assert(t =~= Seq::<NodeView>::empty());
    } else {
        let here: nat = if id_of(s[k]) > floor { id_of(s[k]) as nat } else { floor };
        assert(t[0] == s[k]);
        assert(t.drop_first() =~= s.subrange(k + 1, s.len() as int));
        let inner = match s[k] {
            NodeView::Group(g) => ids_in(g.children),
            _ => Seq::empty(),
        };
        let inside: nat = match s[k] {
            NodeView::Group(g) => highest_at(g.children, 0, here),
            _ => here,
        };
        match s[k] {
            NodeView::Group(g) => {
                assert(decreases_to!(s => g.children)) by {
                    assert(decreases_to!(s => s[k]));
                }
                lemma_highest(g.children, 0, here);
                assert(g.children.subrange(0, g.children.len() as int) =~= g.children);
            },
            _ => {},
        }
        assert(forall|i: int| 0 <= i < inner.len() ==> #[trigger] inner[i] <= inside);
        lemma_highest(s, k + 1, inside);
        let rest = ids_in(s.subrange(k + 1, s.len() as int));
        assert(ids_in(t) == seq![id_of(s[k])] + inner + rest);
        assert forall|i: int| 0 <= i < ids_in(t).len() implies #[trigger] ids_in(t)[i] <= highest_at(s, k, floor) by {
            if i == 0 {
            } else if i < 1 + inner.len() {
                assert(ids_in(t)[i] == inner[i - 1]);
            } else {
                assert(ids_in(t)[i] == rest[i - 1 - inner.len()]);
            }
        }
    }
}

/// The id [`Scene::next_id`](crate::scene::Scene::next_id) gives is one no
/// node of the tree holds, and not the root's.
pub proof fn lemma_next_id_is_free(root: GroupView)
    requires
        highest_at(root.children, 0, ROOT_ID as nat) < u64::MAX,
    ensures
        !ids_in(root.children).contains((highest_at(root.children, 0, ROOT_ID as nat) + 1) as NodeId),
        (highest_at(root.children, 0, ROOT_ID as nat) + 1) as NodeId != ROOT_ID,
{
    lemma_highest(root.children, 0, ROOT_ID as nat);
    assert(root.children.subrange(0, root.children.len() as int) =~= root.children);
}

} // verus!
