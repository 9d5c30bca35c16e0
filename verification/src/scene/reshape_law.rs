//! A change to the shape of the tree takes back exactly.
//!
//! A restructure keeps the lists of children it rewrote, before and after.
//! Written back into the tree the change made, the lists before give the
//! tree that stood; written into that tree, the lists after give the tree
//! the change made. That holds when every group in either tree has an id of
//! its own, and the change left the mark of new drawings where it was.

use vstd::prelude::*;

use crate::scene::edit::{first_group_at, group_of, put_group, put_group_at, with_children};
use crate::scene::model::{GroupView, NodeId, NodeView, ROOT_ID};
use crate::scene::restructure::{lists_among, lists_of, same_row, write_list, written};

verus! {

/// The ids of the groups of a node, itself included, however deep.
pub open spec fn node_gids(n: NodeView) -> Set<NodeId> {
    match n {
        NodeView::Group(g) => gids_at(g.children, 0).insert(g.id),
        _ => Set::empty(),
    }
}

/// The ids of the groups of `s` from place `k` on, however deep.
pub open spec fn gids_at(s: Seq<NodeView>, k: int) -> Set<NodeId>
    decreases s, s.len() - k,
{
    if k < 0 || k >= s.len() {
        Set::empty()
    } else {
        let here = match s[k] {
            NodeView::Group(g) => gids_at(g.children, 0).insert(g.id),
            _ => Set::empty(),
        };
        here + gids_at(s, k + 1)
    }
}

/// Whether no two groups of `s` from place `k` on share an id, and no group
/// holds a group of its own id.
pub open spec fn distinct_at(s: Seq<NodeView>, k: int) -> bool
    decreases s, s.len() - k,
{
    if k < 0 || k >= s.len() {
        true
    } else {
        &&& node_gids(s[k]).disjoint(gids_at(s, k + 1))
        &&& match s[k] {
            NodeView::Group(g) => !gids_at(g.children, 0).contains(g.id) && distinct_at(g.children, 0),
            _ => true,
        }
        &&& distinct_at(s, k + 1)
    }
}

/// Whether every group of a tree has an id of its own.
pub open spec fn ids_apart(g: GroupView) -> bool {
    !gids_at(g.children, 0).contains(g.id) && distinct_at(g.children, 0)
}

/// Whether two versions of one group agree on all but their children.
pub open spec fn matched(a: GroupView, b: GroupView) -> bool {
    a.id == b.id && a.name == b.name && a.shown == b.shown && a.ink == b.ink
}

/// Whether two versions of a group agree on the mark of new drawings in
/// every pair of groups the walk of [`lists_of`] meets.
pub open spec fn kin(a: GroupView, b: GroupView) -> bool
    decreases a, 0int,
{
    &&& a.ink == b.ink
    &&& (a.children == b.children || !same_row(a.children, b.children) || kin_among(a.children, b.children, 0))
}

/// [`kin`] over the pairs of groups at place `k` of two rows or after.
pub open spec fn kin_among(was: Seq<NodeView>, now: Seq<NodeView>, k: int) -> bool
    decreases was, was.len() - k,
{
    if k < 0 || k >= was.len() || k >= now.len() {
        true
    } else {
        &&& match (was[k], now[k]) {
            (NodeView::Group(a), NodeView::Group(b)) => kin(a, b),
            _ => true,
        }
        &&& kin_among(was, now, k + 1)
    }
}

/// A list of children with the group of this id given `children`: the
/// first group of that id, however deep.
pub open spec fn write_in(s: Seq<NodeView>, id: NodeId, children: Seq<NodeView>) -> Seq<NodeView> {
    match first_group_at(s, id, 0) {
        Some(g) => put_group_at(s, id, with_children(g, children), 0),
        None => s,
    }
}

/// A list of children with the first `n` lists written into it, in order.
pub open spec fn written_in(s: Seq<NodeView>, lists: Seq<(NodeId, Seq<NodeView>)>, n: int) -> Seq<NodeView>
    decreases n,
{
    if n <= 0 || n > lists.len() {
        s
    } else {
        let (id, children) = lists[n - 1];
        write_in(written_in(s, lists, n - 1), id, children)
    }
}

/// A context a list of children sits in, inside the whole tree: a write
/// of a group the list holds reaches that group through it.
pub open spec fn passes(ctx: spec_fn(Seq<NodeView>) -> Seq<NodeView>, ids: Set<NodeId>) -> bool {
    forall|c: Seq<NodeView>, id: NodeId, children: Seq<NodeView>|
        ids.contains(id) && #[trigger] gids_at(c, 0).contains(id)
            ==> #[trigger] write_in(ctx(c), id, children) == ctx(write_in(c, id, children))
}

// ---------------------------------------------------------------------
// Where a search for a group lands.

proof fn lemma_found_iff(s: Seq<NodeView>, id: NodeId, k: int)
    ensures
        (first_group_at(s, id, k) is Some) == gids_at(s, k).contains(id),
    decreases s, s.len() - k,
{
    if 0 <= k < s.len() {
        match s[k] {
            NodeView::Group(g) => {
                lemma_found_iff(g.children, id, 0);
                lemma_found_iff(s, id, k + 1);
            },
            _ => {
                lemma_found_iff(s, id, k + 1);
            },
        }
    }
}

proof fn lemma_skip_one(s: Seq<NodeView>, id: NodeId, new: GroupView, k: int)
    requires
        0 <= k < s.len(),
        !node_gids(s[k]).contains(id),
    ensures
        first_group_at(s, id, k) == first_group_at(s, id, k + 1),
        put_group_at(s, id, new, k) == put_group_at(s, id, new, k + 1),
{
    match s[k] {
        NodeView::Group(g) => {
            lemma_found_iff(g.children, id, 0);
        },
        _ => {},
    }
}

proof fn lemma_skip_to(s: Seq<NodeView>, id: NodeId, new: GroupView, k: int, m: int)
    requires
        0 <= k <= m <= s.len(),
        forall|j: int| k <= j < m ==> !(#[trigger] node_gids(s[j])).contains(id),
    ensures
        first_group_at(s, id, k) == first_group_at(s, id, m),
        put_group_at(s, id, new, k) == put_group_at(s, id, new, m),
    decreases m - k,
{
    if k < m {
        lemma_skip_one(s, id, new, k);
        lemma_skip_to(s, id, new, k + 1, m);
    }
}

proof fn lemma_gids_hold_node(s: Seq<NodeView>, k: int, j: int)
    requires
        0 <= k <= j < s.len(),
    ensures
        node_gids(s[j]).subset_of(gids_at(s, k)),
    decreases j - k,
{
    if k < j {
        lemma_gids_hold_node(s, k + 1, j);
    }
}

/// A write of a group that sits at place `m` of a list, with no group of
/// that id before it: the group itself when it carries the id, else the
/// group under it.
proof fn lemma_write_at(s: Seq<NodeView>, id: NodeId, children: Seq<NodeView>, m: int, g: GroupView)
    requires
        0 <= m < s.len(),
        s[m] == NodeView::Group(g),
        forall|j: int| 0 <= j < m ==> !(#[trigger] node_gids(s[j])).contains(id),
        g.id == id || gids_at(g.children, 0).contains(id),
    ensures
        g.id == id ==> write_in(s, id, children) == s.update(m, NodeView::Group(with_children(g, children))),
        g.id != id ==> write_in(s, id, children) == s.update(
            m,
            NodeView::Group(with_children(g, write_in(g.children, id, children))),
        ),
{
    let found = first_group_at(s, id, m);
    if g.id == id {
        lemma_skip_to(s, id, with_children(g, children), 0, m);
    } else {
        lemma_found_iff(g.children, id, 0);
        let h = first_group_at(g.children, id, 0)->0;
        lemma_skip_to(s, id, with_children(h, children), 0, m);
        assert(GroupView { children: put_group_at(g.children, id, with_children(h, children), 0), ..g }
            == with_children(g, write_in(g.children, id, children)));
    }
}

// ---------------------------------------------------------------------
// Lists written one after another.

proof fn lemma_written_prefix(s: Seq<NodeView>, a: Seq<(NodeId, Seq<NodeView>)>, b: Seq<(NodeId, Seq<NodeView>)>, n: int)
    requires
        0 <= n <= a.len(),
    ensures
        written_in(s, a + b, n) == written_in(s, a, n),
    decreases n,
{
    if n > 0 {
        lemma_written_prefix(s, a, b, n - 1);
        assert((a + b)[n - 1] == a[n - 1]);
    }
}

proof fn lemma_written_concat(s: Seq<NodeView>, a: Seq<(NodeId, Seq<NodeView>)>, b: Seq<(NodeId, Seq<NodeView>)>, m: int)
    requires
        0 <= m <= b.len(),
    ensures
        written_in(s, a + b, a.len() + m) == written_in(written_in(s, a, a.len() as int), b, m),
    decreases m,
{
    if m == 0 {
        lemma_written_prefix(s, a, b, a.len() as int);
    } else {
        lemma_written_concat(s, a, b, m - 1);
        assert((a + b)[a.len() + m - 1] == b[m - 1]);
    }
}

// ---------------------------------------------------------------------
// What two groups of one tree share.

proof fn lemma_apart(s: Seq<NodeView>, j: int, i: int)
    requires
        distinct_at(s, 0),
        0 <= j < i < s.len(),
    ensures
        node_gids(s[j]).disjoint(node_gids(s[i])),
{
    lemma_distinct_from(s, 0, j);
    lemma_gids_hold_node(s, j + 1, i);
}

proof fn lemma_distinct_from(s: Seq<NodeView>, k: int, j: int)
    requires
        distinct_at(s, k),
        0 <= k <= j < s.len(),
    ensures
        node_gids(s[j]).disjoint(gids_at(s, j + 1)),
        match s[j] {
            NodeView::Group(g) => !gids_at(g.children, 0).contains(g.id) && distinct_at(g.children, 0),
            _ => true,
        },
    decreases j - k,
{
    if k < j {
        lemma_distinct_from(s, k + 1, j);
    }
}

// ---------------------------------------------------------------------
// The walk of the lists, in a context.

/// Writing the lists before of a pair of groups into the list that holds
/// the newer one puts the older one in its place.
proof fn lemma_pair(
    a: GroupView,
    b: GroupView,
    ctx: spec_fn(Seq<NodeView>) -> Seq<NodeView>,
    cur: Seq<NodeView>,
    i: int,
)
    requires
        matched(a, b),
        kin(a, b),
        ids_apart(a),
        ids_apart(b),
        0 <= i < cur.len(),
        cur[i] == NodeView::Group(b),
        passes(ctx, node_gids(NodeView::Group(a))),
        forall|j: int| 0 <= j < i ==> (#[trigger] node_gids(cur[j])).disjoint(node_gids(NodeView::Group(a))),
    ensures
        written_in(ctx(cur), lists_of(a, b).0, lists_of(a, b).0.len() as int) == ctx(cur.update(i, NodeView::Group(a))),
    decreases a, 0int,
{
    let lists = lists_of(a, b).0;
    if a.children == b.children {
        assert(a == b);
        assert(cur.update(i, NodeView::Group(a)) =~= cur);
    } else if !same_row(a.children, b.children) {
        assert(lists == seq![(b.id, a.children)]);
        assert(written_in(ctx(cur), lists, 0) == ctx(cur));
        lemma_gids_hold_node(cur, 0, i);
        assert(gids_at(cur, 0).contains(b.id));
        assert(node_gids(NodeView::Group(a)).contains(b.id));
        assert(write_in(ctx(cur), b.id, a.children) == ctx(write_in(cur, b.id, a.children)));
        lemma_write_at(cur, b.id, a.children, i, b);
        assert(with_children(b, a.children) == a);
    } else {
        let inner = |c: Seq<NodeView>| ctx(cur.update(i, NodeView::Group(with_children(b, c))));
        assert forall|c: Seq<NodeView>, id: NodeId, children: Seq<NodeView>|
            gids_at(a.children, 0).contains(id) && #[trigger] gids_at(c, 0).contains(id)
                implies #[trigger] write_in(inner(c), id, children) == inner(write_in(c, id, children)) by {
            let there = cur.update(i, NodeView::Group(with_children(b, c)));
            assert(node_gids(NodeView::Group(a)).contains(id));
            assert(node_gids(there[i]).contains(id));
            lemma_gids_hold_node(there, 0, i);
            assert(write_in(ctx(there), id, children) == ctx(write_in(there, id, children)));
            assert(id != b.id);
            assert forall|j: int| 0 <= j < i implies !(#[trigger] node_gids(there[j])).contains(id) by {
                assert(there[j] == cur[j]);
            }
            lemma_write_at(there, id, children, i, with_children(b, c));
            assert(there.update(i, NodeView::Group(with_children(with_children(b, c), write_in(c, id, children))))
                =~= cur.update(i, NodeView::Group(with_children(b, write_in(c, id, children)))));
        }
        assert(passes(inner, gids_at(a.children, 0)));
        lemma_among(a, b, inner, 0);
        assert(a.children.take(0) + b.children.skip(0) =~= b.children);
        assert(with_children(b, b.children) == b);
        assert(cur.update(i, NodeView::Group(b)) =~= cur);
        assert(with_children(b, a.children) == a);
        assert(inner(b.children) == ctx(cur));
        assert(inner(a.children) == ctx(cur.update(i, NodeView::Group(a))));
        assert(lists == lists_among(a.children, b.children, 0).0);
    }
}

/// Writing the lists before of the pairs at place `k` of two rows and
/// after, into a row whose first `k` places stand as before, gives the row
/// that stood before.
proof fn lemma_among(a: GroupView, b: GroupView, ctx: spec_fn(Seq<NodeView>) -> Seq<NodeView>, k: int)
    requires
        matched(a, b),
        same_row(a.children, b.children),
        kin_among(a.children, b.children, 0),
        ids_apart(a),
        ids_apart(b),
        0 <= k <= a.children.len(),
        passes(ctx, gids_at(a.children, 0)),
    ensures
        written_in(
            ctx(a.children.take(k) + b.children.skip(k)),
            lists_among(a.children, b.children, k).0,
            lists_among(a.children, b.children, k).0.len() as int,
        ) == ctx(a.children),
    decreases a.children, a.children.len() - k,
{
    let cur = a.children.take(k) + b.children.skip(k);
    if k == a.children.len() {
        assert(cur =~= a.children);
    } else {
        let next = a.children.take(k + 1) + b.children.skip(k + 1);
        let here = match (a.children[k], b.children[k]) {
            (NodeView::Group(x), NodeView::Group(y)) => lists_of(x, y),
            _ => (Seq::empty(), Seq::empty()),
        };
        let rest = lists_among(a.children, b.children, k + 1);
        assert(lists_among(a.children, b.children, k).0 == here.0 + rest.0);
        assert(cur[k] == b.children[k]);
        match (a.children[k], b.children[k]) {
            (NodeView::Group(x), NodeView::Group(y)) => {
                lemma_kin_at(a.children, b.children, 0, k);
                lemma_distinct_from(a.children, 0, k);
                lemma_distinct_from(b.children, 0, k);
                lemma_gids_hold_node(a.children, 0, k);
                assert forall|j: int| 0 <= j < k implies (#[trigger] node_gids(cur[j])).disjoint(node_gids(NodeView::Group(x))) by {
                    assert(cur[j] == a.children[j]);
                    lemma_apart(a.children, j, k);
                }
                assert forall|c: Seq<NodeView>, id: NodeId, children: Seq<NodeView>|
                    node_gids(NodeView::Group(x)).contains(id) && #[trigger] gids_at(c, 0).contains(id)
                        implies #[trigger] write_in(ctx(c), id, children) == ctx(write_in(c, id, children)) by {
                    assert(gids_at(a.children, 0).contains(id));
                }
                lemma_pair(x, y, ctx, cur, k);
                assert(cur.update(k, NodeView::Group(x)) =~= next);
            },
            _ => {
                assert(a.children[k] == b.children[k]);
                assert(cur =~= next);
                assert(here.0 =~= Seq::<(NodeId, Seq<NodeView>)>::empty());
            },
        }
        lemma_written_concat(ctx(cur), here.0, rest.0, rest.0.len() as int);
        lemma_among(a, b, ctx, k + 1);
    }
}

proof fn lemma_kin_at(was: Seq<NodeView>, now: Seq<NodeView>, k: int, j: int)
    requires
        kin_among(was, now, k),
        0 <= k <= j < was.len(),
        j < now.len(),
    ensures
        match (was[j], now[j]) {
            (NodeView::Group(a), NodeView::Group(b)) => kin(a, b),
            _ => true,
        },
    decreases j - k,
{
    if k < j {
        lemma_kin_at(was, now, k + 1, j);
    }
}

// ---------------------------------------------------------------------
// The whole tree.

proof fn lemma_targets(a: GroupView, b: GroupView)
    requires
        a.id == b.id,
    ensures
        forall|j: int| 0 <= j < lists_of(a, b).0.len() ==> node_gids(NodeView::Group(a)).contains(#[trigger] lists_of(a, b).0[j].0),
    decreases a, 0int,
{
    if a.children == b.children {
    } else if same_row(a.children, b.children) {
        lemma_targets_among(a.children, b.children, 0);
        assert(lists_of(a, b).0 == lists_among(a.children, b.children, 0).0);
    } else {
        assert(lists_of(a, b).0 == seq![(b.id, a.children)]);
    }
}

proof fn lemma_targets_among(was: Seq<NodeView>, now: Seq<NodeView>, k: int)
    requires
        same_row(was, now),
    ensures
        forall|j: int| 0 <= j < lists_among(was, now, k).0.len() ==> gids_at(was, k).contains(#[trigger] lists_among(was, now, k).0[j].0),
    decreases was, was.len() - k,
{
    if 0 <= k < was.len() && k < now.len() {
        let here = match (was[k], now[k]) {
            (NodeView::Group(x), NodeView::Group(y)) => lists_of(x, y),
            _ => (Seq::empty(), Seq::empty()),
        };
        let rest = lists_among(was, now, k + 1);
        lemma_targets_among(was, now, k + 1);
        match (was[k], now[k]) {
            (NodeView::Group(x), NodeView::Group(y)) => {
                lemma_targets(x, y);
            },
            _ => {},
        }
        assert forall|j: int| 0 <= j < lists_among(was, now, k).0.len() implies gids_at(was, k).contains(#[trigger] lists_among(was, now, k).0[j].0) by {
            if j < here.0.len() {
                assert(lists_among(was, now, k).0[j] == here.0[j]);
            } else {
                assert(lists_among(was, now, k).0[j] == rest.0[j - here.0.len()]);
            }
        }
    }
}

proof fn lemma_written_root(root: GroupView, lists: Seq<(NodeId, Seq<NodeView>)>, n: int)
    requires
        0 <= n <= lists.len(),
        forall|j: int| 0 <= j < lists.len() ==> (#[trigger] lists[j]).0 != ROOT_ID,
    ensures
        written(root, lists, n) == with_children(root, written_in(root.children, lists, n)),
    decreases n,
{
    if n == 0 {
        assert(with_children(root, root.children) == root);
    } else {
        lemma_written_root(root, lists, n - 1);
        let (id, children) = lists[n - 1];
        let t = written(root, lists, n - 1);
        assert(id != ROOT_ID);
        assert(group_of(t, id) == first_group_at(t.children, id, 0));
    }
}

/// Undoing a change to the shape of the tree gives back the tree as it
/// stood: the lists the change rewrote, written back into the tree it made,
/// give the tree before it.
///
/// Both trees are trees of a scene, whose every group has an id of its
/// own; the change left the root's name and switches, and the mark of new
/// drawings on the groups it walked through, as they were.
pub proof fn lemma_reshape_reverts(was: GroupView, now: GroupView)
    requires
        was.id == ROOT_ID,
        now.id == ROOT_ID,
        matched(was, now),
        kin(was, now),
        ids_apart(was),
        ids_apart(now),
    ensures
        written(now, lists_of(was, now).0, lists_of(was, now).0.len() as int) == was,
{
    let lists = lists_of(was, now).0;
    if was.children == now.children {
        assert(was == now);
    } else if !same_row(was.children, now.children) {
        assert(lists == seq![(now.id, was.children)]);
        assert(written(now, lists, 0) == now);
        assert(with_children(now, was.children) == was);
    } else {
        assert(lists == lists_among(was.children, now.children, 0).0);
        lemma_targets_among(was.children, now.children, 0);
        lemma_written_root(now, lists, lists.len() as int);
        let top = |c: Seq<NodeView>| c;
        assert(passes(top, gids_at(was.children, 0)));
        lemma_among(was, now, top, 0);
        assert(was.children.take(0) + now.children.skip(0) =~= now.children);
        assert(with_children(now, was.children) == was);
    }
}

proof fn lemma_same_row_swap(was: Seq<NodeView>, now: Seq<NodeView>)
    ensures
        same_row(was, now) == same_row(now, was),
{
    if same_row(was, now) {
        assert forall|i: int| 0 <= i < now.len() implies match (#[trigger] now[i], was[i]) {
            (NodeView::Group(a), NodeView::Group(b)) => a.id == b.id && a.name == b.name && a.shown == b.shown,
            (NodeView::Asset(a), NodeView::Asset(b)) => a == b,
            _ => false,
        } by {
            assert(match (was[i], now[i]) {
                (NodeView::Group(a), NodeView::Group(b)) => a.id == b.id && a.name == b.name && a.shown == b.shown,
                (NodeView::Asset(a), NodeView::Asset(b)) => a == b,
                _ => false,
            });
        }
    }
    if same_row(now, was) {
        assert forall|i: int| 0 <= i < was.len() implies match (#[trigger] was[i], now[i]) {
            (NodeView::Group(a), NodeView::Group(b)) => a.id == b.id && a.name == b.name && a.shown == b.shown,
            (NodeView::Asset(a), NodeView::Asset(b)) => a == b,
            _ => false,
        } by {
            assert(match (now[i], was[i]) {
                (NodeView::Group(a), NodeView::Group(b)) => a.id == b.id && a.name == b.name && a.shown == b.shown,
                (NodeView::Asset(a), NodeView::Asset(b)) => a == b,
                _ => false,
            });
        }
    }
}

proof fn lemma_swap(a: GroupView, b: GroupView)
    requires
        a.id == b.id,
    ensures
        lists_of(a, b).1 == lists_of(b, a).0,
        kin(a, b) == kin(b, a),
    decreases a, 0int,
{
    lemma_same_row_swap(a.children, b.children);
    if a.children != b.children && same_row(a.children, b.children) {
        lemma_swap_among(a.children, b.children, 0);
    }
}

proof fn lemma_swap_among(was: Seq<NodeView>, now: Seq<NodeView>, k: int)
    requires
        same_row(was, now),
    ensures
        lists_among(was, now, k).1 == lists_among(now, was, k).0,
        kin_among(was, now, k) == kin_among(now, was, k),
    decreases was, was.len() - k,
{
    if 0 <= k < was.len() && k < now.len() {
        lemma_swap_among(was, now, k + 1);
        match (was[k], now[k]) {
            (NodeView::Group(x), NodeView::Group(y)) => {
                lemma_swap(x, y);
            },
            _ => {},
        }
    }
}

/// Writing a change to the shape of the tree again, after an undo, gives
/// back the tree it made: the lists it rewrote, written into the tree that
/// stood before, give the tree after it.
///
/// The trees are as [`lemma_reshape_reverts`] asks.
pub proof fn lemma_reshape_redoes(was: GroupView, now: GroupView)
    requires
        was.id == ROOT_ID,
        now.id == ROOT_ID,
        matched(was, now),
        kin(was, now),
        ids_apart(was),
        ids_apart(now),
    ensures
        written(was, lists_of(was, now).1, lists_of(was, now).1.len() as int) == now,
{
    lemma_swap(was, now);
    lemma_reshape_reverts(now, was);
}

// ---------------------------------------------------------------------
// The lists a change keeps stand apart.

/// Whether no listed group sits, however deep, in the list of another, and
/// no group is listed twice.
pub open spec fn lists_apart(ls: Seq<(NodeId, Seq<NodeView>)>) -> bool {
    forall|i: int, j: int|
        0 <= i < ls.len() && 0 <= j < ls.len() && i != j ==> !gids_at(#[trigger] ls[i].1, 0).contains(
            #[trigger] ls[j].0,
        ) && ls[i].0 != ls[j].0
}

/// The lists before the change, or after it.
pub open spec fn side_of(
    lists: (Seq<(NodeId, Seq<NodeView>)>, Seq<(NodeId, Seq<NodeView>)>),
    after: bool,
) -> Seq<(NodeId, Seq<NodeView>)> {
    if after {
        lists.1
    } else {
        lists.0
    }
}

/// What a side of the walk keeps, within the group ids `within`: each
/// listed id among them, each list's groups among them, and the lists
/// apart.
pub open spec fn kept_within(ls: Seq<(NodeId, Seq<NodeView>)>, within: Set<NodeId>) -> bool {
    &&& forall|i: int| 0 <= i < ls.len() ==> within.contains(#[trigger] ls[i].0)
    &&& forall|i: int| 0 <= i < ls.len() ==> gids_at(#[trigger] ls[i].1, 0).subset_of(within)
    &&& lists_apart(ls)
}

proof fn lemma_kept_concat(
    a: Seq<(NodeId, Seq<NodeView>)>,
    b: Seq<(NodeId, Seq<NodeView>)>,
    x: Set<NodeId>,
    y: Set<NodeId>,
)
    requires
        kept_within(a, x),
        kept_within(b, y),
        x.disjoint(y),
    ensures
        kept_within(a + b, x + y),
{
    let c = a + b;
    assert forall|i: int| 0 <= i < c.len() implies (x + y).contains(#[trigger] c[i].0) by {
        if i < a.len() {
            assert(c[i] == a[i]);
        } else {
            assert(c[i] == b[i - a.len()]);
        }
    }
    assert forall|i: int| 0 <= i < c.len() implies gids_at(#[trigger] c[i].1, 0).subset_of(x + y) by {
        if i < a.len() {
            assert(c[i] == a[i]);
        } else {
            assert(c[i] == b[i - a.len()]);
        }
    }
    assert forall|i: int, j: int|
        0 <= i < c.len() && 0 <= j < c.len() && i != j implies !gids_at(#[trigger] c[i].1, 0).contains(
            #[trigger] c[j].0,
        ) && c[i].0 != c[j].0 by {
        if i < a.len() && j < a.len() {
            assert(c[i] == a[i] && c[j] == a[j]);
        } else if i >= a.len() && j >= a.len() {
            assert(c[i] == b[i - a.len()] && c[j] == b[j - a.len()]);
        } else if i < a.len() {
            assert(c[i] == a[i] && c[j] == b[j - a.len()]);
            assert(x.contains(a[i].0) && y.contains(b[j - a.len()].0));
            assert(gids_at(a[i].1, 0).subset_of(x));
        } else {
            assert(c[i] == b[i - a.len()] && c[j] == a[j]);
            assert(x.contains(a[j].0) && y.contains(b[i - a.len()].0));
            assert(gids_at(b[i - a.len()].1, 0).subset_of(y));
        }
    }
}

proof fn lemma_lists_of_kept(was: GroupView, now: GroupView, after: bool)
    requires
        was.id == now.id,
        !after ==> distinct_at(was.children, 0),
        after ==> distinct_at(now.children, 0),
    ensures
        kept_within(
            side_of(lists_of(was, now), after),
            if after { gids_at(now.children, 0).insert(now.id) } else { gids_at(was.children, 0).insert(was.id) },
        ),
    decreases was, 0int,
{
    let within = if after { gids_at(now.children, 0).insert(now.id) } else { gids_at(was.children, 0).insert(was.id) };
    if was.children == now.children {
        assert(side_of(lists_of(was, now), after) =~= Seq::<(NodeId, Seq<NodeView>)>::empty());
    } else if same_row(was.children, now.children) {
        lemma_among_kept(was.children, now.children, 0, after);
        let inner = if after { gids_at(now.children, 0) } else { gids_at(was.children, 0) };
        let ls = side_of(lists_of(was, now), after);
        assert(inner.subset_of(within));
        assert forall|i: int| 0 <= i < ls.len() implies gids_at(#[trigger] ls[i].1, 0).subset_of(within) by {
            assert(gids_at(ls[i].1, 0).subset_of(inner));
        }
    } else {
        let ls = side_of(lists_of(was, now), after);
        assert(ls.len() == 1);
        assert(ls[0].0 == now.id);
    }
}

proof fn lemma_among_kept(was: Seq<NodeView>, now: Seq<NodeView>, k: int, after: bool)
    requires
        same_row(was, now),
        0 <= k,
        !after ==> distinct_at(was, k),
        after ==> distinct_at(now, k),
    ensures
        kept_within(side_of(lists_among(was, now, k), after), if after { gids_at(now, k) } else { gids_at(was, k) }),
    decreases was, was.len() - k,
{
    if k >= was.len() || k >= now.len() {
        assert(side_of(lists_among(was, now, k), after) =~= Seq::<(NodeId, Seq<NodeView>)>::empty());
    } else {
        lemma_among_kept(was, now, k + 1, after);
        let here_sets = if after { node_gids(now[k]) } else { node_gids(was[k]) };
        let rest_set = if after { gids_at(now, k + 1) } else { gids_at(was, k + 1) };
        let here = match (was[k], now[k]) {
            (NodeView::Group(a), NodeView::Group(b)) => lists_of(a, b),
            _ => (Seq::empty(), Seq::empty()),
        };
        match (was[k], now[k]) {
            (NodeView::Group(a), NodeView::Group(b)) => {
                assert(decreases_to!(was => was[k]));
                assert(a.id == b.id);
                lemma_lists_of_kept(a, b, after);
                assert(here_sets == if after { gids_at(b.children, 0).insert(b.id) } else { gids_at(a.children, 0).insert(a.id) });
            },
            _ => {
                assert(side_of(here, after) =~= Seq::<(NodeId, Seq<NodeView>)>::empty());
            },
        }
        assert(kept_within(side_of(here, after), here_sets));
        assert(here_sets.disjoint(rest_set));
        let rest = lists_among(was, now, k + 1);
        lemma_kept_concat(side_of(here, after), side_of(rest, after), here_sets, rest_set);
        assert(side_of(lists_among(was, now, k), after) == side_of(here, after) + side_of(rest, after));
        let all = if after { gids_at(now, k) } else { gids_at(was, k) };
        assert(all =~= here_sets + rest_set);
    }
}

/// The lists a change keeps of a tree whose groups each have an id of
/// their own stand apart: no group is listed twice, and no listed group
/// sits, however deep, in the list kept of another, before the change
/// and after it.
pub proof fn lemma_listed_groups_stand_apart(was: GroupView, now: GroupView)
    requires
        was.id == now.id,
        ids_apart(was),
        ids_apart(now),
    ensures
        lists_apart(lists_of(was, now).0),
        lists_apart(lists_of(was, now).1),
{
    lemma_lists_of_kept(was, now, false);
    lemma_lists_of_kept(was, now, true);
}

} // verus!
