//! Order inside one group: a selection that moves one place up or down
//! among the nodes it sits with.

use vstd::prelude::*;

use crate::scene::edit::{first_group_at, group_of, lemma_first_group_id, lemma_put_twice, put_group, put_group_at, with_children};
use crate::scene::model::{
    Group, GroupView, Node, NodeId, NodeView, ROOT_ID, id_of, lemma_view_nodes, lemma_view_nodes_ext,
    nodes_view, view_node, view_nodes,
};
use crate::scene::tree::{parent_in, position, position_at};
use crate::scene::{Scene, lend_group, parent_of, return_group};

verus! {

broadcast use lemma_view_nodes;

/// The group that holds every node of a selection, when one does.
pub open spec fn shared_parent(root: GroupView, ids: Seq<NodeId>) -> Option<NodeId> {
    if ids.len() == 0 {
        None
    } else {
        match parent_in(root, ids[0]) {
            None => None,
            Some((first, _)) => if forall|i: int|
                0 <= i < ids.len() ==> (#[trigger] parent_in(root, ids[i]) matches Some((p, _)) && p == first) {
                Some(first)
            } else {
                None
            },
        }
    }
}

/// The group that holds every node in a selection, when one does.
///
/// Order lives inside one group, so a move in order asks this first.
pub fn share_parent(scene: &Scene, ids: &[NodeId]) -> (r: Option<NodeId>)
    ensures
        r == shared_parent(scene@, ids@),
{
    if ids.len() == 0 {
        return None;
    }
    let first = match parent_of(scene, ids[0]) {
        Some((group, _)) => group,
        None => {
            return None;
        },
    };
    let mut i: usize = 0;
    while i < ids.len()
        invariant
            i <= ids.len(),
            parent_in(scene@, ids@[0]) matches Some((p, _)) && p == first,
            forall|j: int| 0 <= j < i ==> (#[trigger] parent_in(scene@, ids@[j]) matches Some((p, _)) && p == first),
        decreases ids.len() - i,
    {
        match parent_of(scene, ids[i]) {
            Some((group, _)) => {
                if group != first {
                    return None;
                }
            },
            None => {
                return None;
            },
        }
        i += 1;
    }
    Some(first)
}

/// The places in `children` of the first `n` ids of a selection, in the
/// order the selection names them. An id the list lacks gives none.
pub open spec fn places_of(children: Seq<NodeView>, ids: Seq<NodeId>, n: int) -> Seq<usize>
    decreases n,
{
    if n <= 0 || n > ids.len() {
        Seq::empty()
    } else {
        places_of(children, ids, n - 1) + match position_at(children, ids[n - 1], 0) {
            Some(p) => seq![p as usize],
            None => Seq::empty(),
        }
    }
}

/// How often `x` stands in `raw`.
pub open spec fn count_in(raw: Seq<usize>, x: int) -> nat
    decreases raw.len(),
{
    if raw.len() == 0 {
        0
    } else {
        count_in(raw.drop_last(), x) + if raw.last() == x { 1nat } else { 0 }
    }
}

/// The list with the nodes at `p` and `p + 1` changed over.
pub open spec fn swapped(s: Seq<NodeView>, p: int) -> Seq<NodeView> {
    s.update(p, s[p + 1]).update(p + 1, s[p])
}

/// The list with the nodes at `p` and `p + 1` changed over `n` times.
pub open spec fn swapped_times(s: Seq<NodeView>, p: int, n: nat) -> Seq<NodeView>
    decreases n,
{
    if n == 0 {
        s
    } else {
        swapped(swapped_times(s, p, (n - 1) as nat), p)
    }
}

/// Every place at `q` or above, from the top down, each stepped up once
/// for each time `raw` names it.
pub open spec fn raised(s: Seq<NodeView>, raw: Seq<usize>, q: int) -> Seq<NodeView>
    decreases s.len() - q,
{
    if q < 0 || q + 1 >= s.len() {
        s
    } else {
        swapped_times(raised(s, raw, q + 1), q, count_in(raw, q))
    }
}

/// Every place below `q`, from the bottom up, each stepped down once for
/// each time `raw` names it.
pub open spec fn lowered(s: Seq<NodeView>, raw: Seq<usize>, q: int) -> Seq<NodeView>
    decreases q,
{
    if q <= 1 || q > s.len() {
        s
    } else {
        swapped_times(lowered(s, raw, q - 1), q - 2, count_in(raw, q - 1))
    }
}

/// What [`reorder_all`] makes of a tree, and whether the selection moved.
pub open spec fn reordered(root: GroupView, ids: Seq<NodeId>, toward_top: bool) -> (GroupView, bool) {
    match shared_parent(root, ids) {
        None => (root, false),
        Some(parent) => match group_of(root, parent) {
            None => (root, false),
            Some(g) => {
                let raw = places_of(g.children, ids, ids.len() as int);
                let len = g.children.len();
                if raw.len() == 0 {
                    (root, false)
                } else if toward_top {
                    if raw.contains((len - 1) as usize) {
                        (root, false)
                    } else {
                        (put_group(root, parent, with_children(g, raised(g.children, raw, 0))), true)
                    }
                } else if raw.contains(0) {
                    (root, false)
                } else {
                    (put_group(root, parent, with_children(g, lowered(g.children, raw, len as int))), true)
                }
            },
        },
    }
}

/// A put of the group a search finds, as it stood, leaves the list alone.
pub proof fn lemma_put_same(s: Seq<NodeView>, id: NodeId, k: int)
    requires
        first_group_at(s, id, k) is Some,
    ensures
        put_group_at(s, id, first_group_at(s, id, k)->0, k) == s,
    decreases s, s.len() - k,
{
    match s[k] {
        NodeView::Group(g) => {
            if g.id == id {
                assert(s.update(k, NodeView::Group(g)) =~= s);
            } else if first_group_at(g.children, id, 0) is Some {
                lemma_put_same(g.children, id, 0);
                assert(s.update(k, NodeView::Group(with_children(g, g.children))) =~= s);
            } else {
                lemma_put_same(s, id, k + 1);
            }
        },
        _ => {
            lemma_put_same(s, id, k + 1);
        },
    }
}

/// A put of the group an edit reaches, as it stood, leaves the tree alone.
pub proof fn lemma_put_group_same(root: GroupView, id: NodeId)
    requires
        group_of(root, id) is Some,
    ensures
        put_group(root, id, group_of(root, id)->0) == root,
{
    if id != ROOT_ID {
        lemma_put_same(root.children, id, 0);
        assert(with_children(root, root.children) =~= root);
    }
}

/// The places a selection takes in a list, in the order it names them.
fn places(children: &Vec<Node>, ids: &[NodeId]) -> (r: Vec<usize>)
    ensures
        r@ == places_of(nodes_view(children), ids@, ids@.len() as int),
        forall|i: int| 0 <= i < r@.len() ==> #[trigger] r@[i] < children@.len(),
{
    let mut out: Vec<usize> = Vec::new();
    let mut n: usize = 0;
    while n < ids.len()
        invariant
            n <= ids.len(),
            out@ == places_of(nodes_view(children), ids@, n as int),
            forall|i: int| 0 <= i < out@.len() ==> #[trigger] out@[i] < children@.len(),
        decreases ids.len() - n,
    {
        let found = position(children, ids[n]);
        proof {
            crate::scene::tree::lemma_position(nodes_view(children), ids@[n as int], 0);
        }
        match found {
            Some(p) => {
                out.push(p);
            },
            None => {},
        }
        proof {
            assert(places_of(nodes_view(children), ids@, n + 1) =~= out@);
        }
        n += 1;
    }
    out
}

/// How often a place stands in a list of places.
fn count_place(raw: &Vec<usize>, x: usize) -> (r: usize)
    ensures
        r == count_in(raw@, x as int),
{
    let mut total: usize = 0;
    let mut i: usize = 0;
    while i < raw.len()
        invariant
            i <= raw.len(),
            total == count_in(raw@.subrange(0, i as int), x as int),
            total <= i,
        decreases raw.len() - i,
    {
        proof {
            assert(raw@.subrange(0, i + 1).drop_last() =~= raw@.subrange(0, i as int));
        }
        if raw[i] == x {
            total += 1;
        }
        i += 1;
    }
    proof {
        assert(raw@.subrange(0, i as int) =~= raw@);
    }
    total
}

/// Whether a list of places holds this one.
fn holds_place(raw: &Vec<usize>, x: usize) -> (r: bool)
    ensures
        r == raw@.contains(x),
{
    let mut i: usize = 0;
    while i < raw.len()
        invariant
            i <= raw.len(),
            forall|j: int| 0 <= j < i ==> raw@[j] != x,
        decreases raw.len() - i,
    {
        if raw[i] == x {
            return true;
        }
        i += 1;
    }
    false
}

/// Changes over the nodes at `p` and `p + 1`, `times` times.
fn swap_times(children: &mut Vec<Node>, p: usize, times: usize)
    requires
        p + 1 < old(children)@.len(),
    ensures
        nodes_view(final(children)) == swapped_times(nodes_view(old(children)), p as int, times as nat),
        final(children)@.len() == old(children)@.len(),
{
    let ghost start = nodes_view(children);
    let ghost length = children@.len();
    let mut done: usize = 0;
    while done < times
        invariant
            p + 1 < children@.len(),
            children@.len() == length,
            done <= times,
            nodes_view(children) == swapped_times(start, p as int, done as nat),
        decreases times - done,
    {
        let ghost before = children@;
        let n = children.len();
        assert(p + 1 < n);
        let node = children.remove(p);
        children.insert(p + 1, node);
        proof {
            let was = view_nodes(before);
            assert(was.len() == before.len());
            assert forall|i: int| 0 <= i < children@.len() implies view_node(#[trigger] children@[i])
                == swapped(was, p as int)[i] by {
                assert(was[i] == view_node(before[i]));
                if i == p {
                    assert(children@[i] == before[p + 1]);
                    assert(was[p + 1] == view_node(before[p + 1]));
                }
            }
            lemma_view_nodes_ext(children@, swapped(was, p as int));
        }
        done += 1;
    }
}

/// Moves a selection one place among its brothers and sisters.
///
/// The whole selection moves, or none of it does. A set that has reached
/// the end stays where it is, so two nodes in it never step over one
/// another and the order they draw in holds.
pub fn reorder_all(scene: &mut Scene, ids: &[NodeId], toward_top: bool) -> (r: bool)
    ensures
        (final(scene)@, r) == reordered(old(scene)@, ids@, toward_top),
{
    let ghost was = scene@;
    let parent = match share_parent(scene, ids) {
        Some(parent) => parent,
        None => {
            return false;
        },
    };
    let mut group = match lend_group(scene, parent) {
        Some(group) => group,
        None => {
            return false;
        },
    };
    let ghost g = group@;
    let raw = places(&group.children, ids);
    let len = group.children.len();
    proof {
        assert(g.children == nodes_view(&group.children));
        assert(g.children.len() == len);
        lemma_put_group_same(was, parent);
    }
    if raw.len() == 0 {
        return_group(scene, parent, group, Ghost(was));
        return false;
    }
    assert(raw@[0] < len);
    if toward_top {
        if holds_place(&raw, len - 1) {
            return_group(scene, parent, group, Ghost(was));
            return false;
        }
        let mut q: usize = len - 1;
        proof {
            assert(raised(g.children, raw@, q as int) == g.children);
        }
        while q > 0
            invariant
                q < len,
                len == g.children.len(),
                group.children@.len() == len,
                group@ == with_children(g, nodes_view(&group.children)),
                nodes_view(&group.children) == raised(g.children, raw@, q as int),
            decreases q,
        {
            q -= 1;
            let times = count_place(&raw, q);
            swap_times(&mut group.children, q, times);
            proof {
                assert(group@ =~= with_children(g, nodes_view(&group.children)));
            }
        }
    } else {
        if holds_place(&raw, 0) {
            return_group(scene, parent, group, Ghost(was));
            return false;
        }
        let mut q: usize = 1;
        proof {
            assert(lowered(g.children, raw@, q as int) == g.children);
        }
        while q < len
            invariant
                1 <= q <= len,
                len == g.children.len(),
                group.children@.len() == len,
                group@ == with_children(g, nodes_view(&group.children)),
                nodes_view(&group.children) == lowered(g.children, raw@, q as int),
            decreases len - q,
        {
            let times = count_place(&raw, q);
            swap_times(&mut group.children, q - 1, times);
            q += 1;
            proof {
                assert(group@ =~= with_children(g, nodes_view(&group.children)));
            }
        }
    }
    return_group(scene, parent, group, Ghost(was));
    true
}

/// Whether two lists hold the same nodes: as many, and each of one in the
/// other.
pub open spec fn same_nodes(a: Seq<NodeView>, b: Seq<NodeView>) -> bool {
    &&& a.len() == b.len()
    &&& forall|x: NodeView| a.contains(x) <==> b.contains(x)
}

proof fn lemma_swapped_keeps(s: Seq<NodeView>, p: int)
    requires
        0 <= p && p + 1 < s.len(),
    ensures
        same_nodes(s, swapped(s, p)),
{
    let t = swapped(s, p);
    assert forall|x: NodeView| s.contains(x) <==> t.contains(x) by {
        if s.contains(x) {
            let i = choose|i: int| 0 <= i < s.len() && s[i] == x;
            if i == p {
                assert(t[p + 1] == x);
            } else if i == p + 1 {
                assert(t[p] == x);
            } else {
                assert(t[i] == x);
            }
        }
        if t.contains(x) {
            let i = choose|i: int| 0 <= i < t.len() && t[i] == x;
            if i == p {
                assert(s[p + 1] == x);
            } else if i == p + 1 {
                assert(s[p] == x);
            } else {
                assert(s[i] == x);
            }
        }
    }
}

proof fn lemma_swapped_times_keeps(s: Seq<NodeView>, p: int, n: nat)
    requires
        0 <= p && p + 1 < s.len(),
    ensures
        same_nodes(s, swapped_times(s, p, n)),
    decreases n,
{
    if n > 0 {
        lemma_swapped_times_keeps(s, p, (n - 1) as nat);
        lemma_swapped_keeps(swapped_times(s, p, (n - 1) as nat), p);
    }
}

proof fn lemma_raised_keeps(s: Seq<NodeView>, raw: Seq<usize>, q: int)
    ensures
        same_nodes(s, raised(s, raw, q)),
    decreases s.len() - q,
{
    if 0 <= q && q + 1 < s.len() {
        lemma_raised_keeps(s, raw, q + 1);
        lemma_swapped_times_keeps(raised(s, raw, q + 1), q, count_in(raw, q));
    }
}

proof fn lemma_lowered_keeps(s: Seq<NodeView>, raw: Seq<usize>, q: int)
    ensures
        same_nodes(s, lowered(s, raw, q)),
    decreases q,
{
    if 1 < q <= s.len() {
        lemma_lowered_keeps(s, raw, q - 1);
        lemma_swapped_times_keeps(lowered(s, raw, q - 1), q - 2, count_in(raw, q - 1));
    }
}

/// A change of order moves nodes within the list of their group alone: the
/// group keeps its place in the tree, and its list holds the same nodes as
/// before, in another order.
pub proof fn lemma_reorder_keeps_the_nodes(root: GroupView, ids: Seq<NodeId>, toward_top: bool)
    requires
        reordered(root, ids, toward_top).1,
    ensures
        ({
            let parent = shared_parent(root, ids)->0;
            let before = group_of(root, parent)->0;
            &&& group_of(reordered(root, ids, toward_top).0, parent) matches Some(g)
            &&& g.id == before.id && g.name == before.name && g.shown == before.shown
            &&& same_nodes(before.children, g.children)
        }),
{
    let parent = shared_parent(root, ids)->0;
    let g = group_of(root, parent)->0;
    let raw = places_of(g.children, ids, ids.len() as int);
    let list = if toward_top { raised(g.children, raw, 0) } else { lowered(g.children, raw, g.children.len() as int) };
    if toward_top {
        lemma_raised_keeps(g.children, raw, 0);
    } else {
        lemma_lowered_keeps(g.children, raw, g.children.len() as int);
    }
    let a = with_children(g, list);
    if parent != ROOT_ID {
        lemma_first_group_id(root.children, parent, 0);
    }
    lemma_put_twice(root, parent, a, a);
}

/// With no place named twice, a place stands in the list once or not at
/// all.
proof fn lemma_count_once(raw: Seq<usize>, x: usize)
    requires
        raw.no_duplicates(),
    ensures
        count_in(raw, x as int) == if raw.contains(x) { 1nat } else { 0nat },
    decreases raw.len(),
{
    if raw.len() > 0 {
        let rest = raw.drop_last();
        assert(rest.no_duplicates()) by {
            assert forall|i: int, j: int| 0 <= i < rest.len() && 0 <= j < rest.len() && i != j implies rest[i]
                != rest[j] by {
                assert(rest[i] == raw[i] && rest[j] == raw[j]);
            }
        }
        lemma_count_once(rest, x);
        if raw.last() == x {
            assert(raw[raw.len() - 1] == x);
            if rest.contains(x) {
                let i = choose|i: int| 0 <= i < rest.len() && rest[i] == x;
                assert(raw[i] == x);
            }
        } else {
            if raw.contains(x) {
                let i = choose|i: int| 0 <= i < raw.len() && raw[i] == x;
                assert(rest[i] == x);
            }
            if rest.contains(x) {
                let i = choose|i: int| 0 <= i < rest.len() && rest[i] == x;
                assert(raw[i] == x);
            }
        }
    }
}

/// The places of a selection of distinct ids are distinct places of the
/// list, each holding one of the ids.
proof fn lemma_places_distinct(children: Seq<NodeView>, ids: Seq<NodeId>, n: int)
    requires
        ids.no_duplicates(),
        n <= ids.len(),
        children.len() <= usize::MAX,
    ensures
        places_of(children, ids, n).no_duplicates(),
        forall|i: int| 0 <= i < places_of(children, ids, n).len() ==> {
            &&& #[trigger] places_of(children, ids, n)[i] < children.len()
            &&& exists|k: int| 0 <= k < n && id_of(children[places_of(children, ids, n)[i] as int]) == ids[k]
        },
    decreases n,
{
    if n > 0 {
        lemma_places_distinct(children, ids, n - 1);
        crate::scene::tree::lemma_position(children, ids[n - 1], 0);
        let before = places_of(children, ids, n - 1);
        let now = places_of(children, ids, n);
        match position_at(children, ids[n - 1], 0) {
            Some(q) => {
                assert(now == before + seq![q as usize]);
                assert forall|i: int| 0 <= i < now.len() implies {
                    &&& #[trigger] now[i] < children.len()
                    &&& exists|k: int| 0 <= k < n && id_of(children[now[i] as int]) == ids[k]
                } by {
                    if i < before.len() {
                        assert(now[i] == before[i]);
                        let k = choose|k: int| 0 <= k < n - 1 && id_of(children[before[i] as int]) == ids[k];
                        assert(id_of(children[now[i] as int]) == ids[k]);
                    } else {
                        assert(now[i] == q as usize);
                        assert((q as usize) as int == q);
                        assert(id_of(children[now[i] as int]) == ids[n - 1]);
                    }
                }
                assert forall|i: int, j: int| 0 <= i < now.len() && 0 <= j < now.len() && i != j implies now[i]
                    != now[j] by {
                    if i < before.len() && j < before.len() {
                        assert(now[i] == before[i] && now[j] == before[j]);
                    } else if i < before.len() {
                        assert(now[i] == before[i]);
                        assert(now[j] == q as usize && (q as usize) as int == q);
                        let k = choose|k: int| 0 <= k < n - 1 && id_of(children[before[i] as int]) == ids[k];
                        assert(ids[k] != ids[n - 1]);
                    } else if j < before.len() {
                        assert(now[j] == before[j]);
                        assert(now[i] == q as usize && (q as usize) as int == q);
                        let k = choose|k: int| 0 <= k < n - 1 && id_of(children[before[j] as int]) == ids[k];
                        assert(ids[k] != ids[n - 1]);
                    }
                }
            },
            None => {
                assert(now =~= before);
                assert forall|i: int| 0 <= i < now.len() implies {
                    &&& #[trigger] now[i] < children.len()
                    &&& exists|k: int| 0 <= k < n && id_of(children[now[i] as int]) == ids[k]
                } by {
                    assert(now[i] == before[i]);
                    let k = choose|k: int| 0 <= k < n - 1 && id_of(children[before[i] as int]) == ids[k];
                    assert(id_of(children[now[i] as int]) == ids[k]);
                }
            },
        }
    }
}

/// The places of a selection name the place of each id of it that the
/// list holds, and each place they name holds an id of it.
pub proof fn lemma_places_are_the_selection(children: Seq<NodeView>, ids: Seq<NodeId>, n: int)
    requires
        0 <= n <= ids.len(),
        children.len() <= usize::MAX,
    ensures
        forall|k: int| 0 <= k < n && #[trigger] position_at(children, ids[k], 0) is Some ==> places_of(
            children,
            ids,
            n,
        ).contains(position_at(children, ids[k], 0)->0 as usize),
        forall|p: usize| #[trigger] places_of(children, ids, n).contains(p) ==> p < children.len() && ids.take(n).contains(
            id_of(children[p as int]),
        ),
    decreases n,
{
    if n > 0 {
        lemma_places_are_the_selection(children, ids, n - 1);
        crate::scene::tree::lemma_position(children, ids[n - 1], 0);
        let before = places_of(children, ids, n - 1);
        let now = places_of(children, ids, n);
        let extra = match position_at(children, ids[n - 1], 0) {
            Some(q) => seq![q as usize],
            None => Seq::<usize>::empty(),
        };
        assert(now == before + extra);
        assert forall|k: int| 0 <= k < n && #[trigger] position_at(children, ids[k], 0) is Some implies now.contains(
            position_at(children, ids[k], 0)->0 as usize,
        ) by {
            let q = position_at(children, ids[k], 0)->0 as usize;
            if k < n - 1 {
                let i = choose|i: int| 0 <= i < before.len() && before[i] == q;
                assert(now[i] == q);
            } else {
                assert(now[before.len() as int] == q);
            }
        }
        assert forall|p: usize| #[trigger] now.contains(p) implies p < children.len() && ids.take(n).contains(
            id_of(children[p as int]),
        ) by {
            let i = choose|i: int| 0 <= i < now.len() && now[i] == p;
            if i < before.len() {
                assert(before[i] == p);
                assert(before.contains(p));
                let t = ids.take(n - 1);
                let j = choose|j: int| 0 <= j < t.len() && t[j] == id_of(children[p as int]);
                assert(ids.take(n)[j] == id_of(children[p as int]));
            } else {
                let q = position_at(children, ids[n - 1], 0)->0;
                assert(p == q as usize);
                assert(ids.take(n)[n - 1] == id_of(children[p as int]));
            }
        }
    }
}

/// The nearest place at `i` or below that `raw` does not name; the bottom
/// place when every one above it is named.
pub open spec fn kept_below(raw: Seq<usize>, i: int) -> int
    decreases i,
{
    if i <= 0 {
        0
    } else if !raw.contains(i as usize) {
        i
    } else {
        kept_below(raw, i - 1)
    }
}

/// The place [`kept_below`] gives is at `i` or below, `raw` does not name
/// it, and `raw` names every place above it up to `i`.
pub proof fn lemma_kept_below(raw: Seq<usize>, i: int)
    requires
        0 <= i,
        !raw.contains(0usize),
    ensures
        0 <= kept_below(raw, i) <= i,
        !raw.contains(kept_below(raw, i) as usize),
        forall|k: int| kept_below(raw, i) < k <= i ==> #[trigger] raw.contains(k as usize),
    decreases i,
{
    if i > 0 && raw.contains(i as usize) {
        lemma_kept_below(raw, i - 1);
    }
}

/// Lowering the places below `m`, from the bottom up: each named place
/// below `m` has stepped down one, the places from `m` up are as they
/// were, and a place the step does not fill holds the node from the
/// nearest place at it or below that stays.
proof fn lemma_lowered_shape(s: Seq<NodeView>, raw: Seq<usize>, m: int)
    requires
        1 <= m <= s.len() <= usize::MAX,
        raw.no_duplicates(),
        !raw.contains(0usize),
    ensures
        ({
            let u = lowered(s, raw, m);
            &&& u.len() == s.len()
            &&& forall|i: int| m <= i < s.len() ==> #[trigger] u[i] == s[i]
            &&& forall|p: int| 1 <= p < m && raw.contains(p as usize) ==> #[trigger] u[p - 1] == s[p]
            &&& forall|i: int| 0 <= i < m && (i == m - 1 || !raw.contains((i + 1) as usize)) ==> #[trigger] u[i] == s[kept_below(raw, i)]
        }),
    decreases m,
{
    if m > 1 {
        lemma_lowered_shape(s, raw, m - 1);
        let u0 = lowered(s, raw, m - 1);
        let u = lowered(s, raw, m);
        let x = (m - 1) as usize;
        lemma_count_once(raw, x);
        assert(x as int == m - 1);
        assert(u == swapped_times(u0, m - 2, count_in(raw, m - 1)));
        assert(swapped_times(u0, m - 2, 0) == u0);
        if raw.contains(x) {
            assert(count_in(raw, m - 1) == 1);
            assert(swapped_times(u0, m - 2, 1) == swapped(swapped_times(u0, m - 2, 0), m - 2));
            assert(u == swapped(u0, m - 2));
            assert(kept_below(raw, m - 1) == kept_below(raw, m - 2));
            assert(u0[m - 2] == s[kept_below(raw, m - 2)]);
            assert(u[m - 1] == s[kept_below(raw, m - 1)]);
            assert(u[m - 2] == s[m - 1]);
            assert forall|p: int| 1 <= p < m && raw.contains(p as usize) implies #[trigger] u[p - 1] == s[p] by {
                if p < m - 1 {
                    assert(u[p - 1] == u0[p - 1]);
                }
            }
            assert forall|i: int| 0 <= i < m && (i == m - 1 || !raw.contains((i + 1) as usize)) implies #[trigger] u[i]
                == s[kept_below(raw, i)] by {
                if i < m - 2 {
                    assert(u[i] == u0[i]);
                }
            }
        } else {
            assert(count_in(raw, m - 1) == 0);
            assert(u == u0);
            assert(kept_below(raw, m - 1) == m - 1);
            assert(u[m - 1] == s[m - 1]);
        }
    }
}

/// Lowering a selection steps each node of it down one place among the
/// nodes of its group, and the others keep their order. The selected
/// places are those of the ids the list holds, none of them the bottom
/// one; a selected node at place `p` comes to `p - 1`, and every other
/// place holds the node from the nearest place at it or below that the
/// selection does not name ([`kept_below`]); those places, from the bottom
/// up, take the nodes left out in the order they stood in. This holds for
/// a selection that names no node twice, in a group whose list fits in
/// memory.
pub proof fn lemma_lowering_steps_each_down(root: GroupView, ids: Seq<NodeId>)
    requires
        reordered(root, ids, false).1,
        ids.no_duplicates(),
        group_of(root, shared_parent(root, ids)->0)->0.children.len() <= usize::MAX,
    ensures
        ({
            let parent = shared_parent(root, ids)->0;
            let s = group_of(root, parent)->0.children;
            let sel = places_of(s, ids, ids.len() as int);
            &&& !sel.contains(0usize)
            &&& forall|k: int| 0 <= k < ids.len() && #[trigger] position_at(s, ids[k], 0) is Some ==> sel.contains(
                position_at(s, ids[k], 0)->0 as usize,
            )
            &&& forall|p: usize| #[trigger] sel.contains(p) ==> p < s.len() && ids.contains(id_of(s[p as int]))
            &&& group_of(reordered(root, ids, false).0, parent) matches Some(g)
            &&& g.children.len() == s.len()
            &&& forall|p: int| 0 <= p < s.len() && sel.contains(p as usize) ==> #[trigger] g.children[p - 1] == s[p]
            &&& forall|i: int| 0 <= i < s.len() && !sel.contains((i + 1) as usize) ==> #[trigger] g.children[i]
                == s[kept_below(sel, i)]
            &&& forall|i1: int, i2: int|
                0 <= i1 < i2 < s.len() && !sel.contains((i1 + 1) as usize) ==> #[trigger] kept_below(sel, i1)
                    < #[trigger] kept_below(sel, i2)
        }),
{
    let parent = shared_parent(root, ids)->0;
    let g = group_of(root, parent)->0;
    let s = g.children;
    let raw = places_of(s, ids, ids.len() as int);
    lemma_places_distinct(s, ids, ids.len() as int);
    lemma_places_are_the_selection(s, ids, ids.len() as int);
    assert(ids.take(ids.len() as int) =~= ids);
    assert(raw[0] < s.len());
    let list = lowered(s, raw, s.len() as int);
    lemma_lowered_shape(s, raw, s.len() as int);
    let a = with_children(g, list);
    if parent != ROOT_ID {
        lemma_first_group_id(root.children, parent, 0);
    }
    lemma_put_twice(root, parent, a, a);
    assert(reordered(root, ids, false).0 == put_group(root, parent, a));
    assert(group_of(reordered(root, ids, false).0, parent) == Some(a));
    assert forall|i: int| 0 <= i < s.len() && !raw.contains((i + 1) as usize) implies #[trigger] a.children[i]
        == s[kept_below(raw, i)] by {
        assert(list[i] == s[kept_below(raw, i)]);
    }
    assert forall|i1: int, i2: int|
        0 <= i1 < i2 < s.len() && !raw.contains((i1 + 1) as usize) implies #[trigger] kept_below(raw, i1)
            < #[trigger] kept_below(raw, i2) by {
        lemma_kept_below(raw, i1);
        lemma_kept_below(raw, i2);
        if kept_below(raw, i2) <= i1 {
            assert(raw.contains((i1 + 1) as usize));
        }
    }
}

/// The nearest place at `i` or above, up to `top`, that `raw` does not
/// name; `top` when every one from `i` up is named.
pub open spec fn kept_above(raw: Seq<usize>, top: int, i: int) -> int
    decreases top - i,
{
    if i >= top {
        top
    } else if !raw.contains(i as usize) {
        i
    } else {
        kept_above(raw, top, i + 1)
    }
}

/// The place [`kept_above`] gives is at `i` or above, `raw` does not name
/// it, and `raw` names every place from `i` up to it.
pub proof fn lemma_kept_above(raw: Seq<usize>, top: int, i: int)
    requires
        0 <= i <= top,
        !raw.contains(top as usize),
    ensures
        i <= kept_above(raw, top, i) <= top,
        !raw.contains(kept_above(raw, top, i) as usize),
        forall|k: int| i <= k < kept_above(raw, top, i) ==> #[trigger] raw.contains(k as usize),
    decreases top - i,
{
    if i < top && raw.contains(i as usize) {
        lemma_kept_above(raw, top, i + 1);
    }
}

/// Raising the places from `m` up, from the top down: each named place
/// from `m` up has stepped up one, the places below `m` are as they were,
/// and a place the step does not fill holds the node from the nearest
/// place at it or above that stays.
proof fn lemma_raised_shape(s: Seq<NodeView>, raw: Seq<usize>, m: int)
    requires
        0 <= m < s.len() <= usize::MAX,
        raw.no_duplicates(),
        !raw.contains((s.len() - 1) as usize),
    ensures
        ({
            let u = raised(s, raw, m);
            let top = s.len() - 1;
            &&& u.len() == s.len()
            &&& forall|i: int| 0 <= i < m ==> #[trigger] u[i] == s[i]
            &&& forall|p: int| m <= p < top && raw.contains(p as usize) ==> #[trigger] u[p + 1] == s[p]
            &&& forall|i: int| m <= i <= top && (i == m || !raw.contains((i - 1) as usize)) ==> #[trigger] u[i] == s[kept_above(raw, top, i)]
        }),
    decreases s.len() - m,
{
    let top = s.len() - 1;
    if m + 1 < s.len() {
        lemma_raised_shape(s, raw, m + 1);
        let u1 = raised(s, raw, m + 1);
        let u = raised(s, raw, m);
        let x = m as usize;
        lemma_count_once(raw, x);
        assert(x as int == m);
        assert(u == swapped_times(u1, m, count_in(raw, m)));
        assert(swapped_times(u1, m, 0) == u1);
        if raw.contains(x) {
            assert(count_in(raw, m) == 1);
            assert(swapped_times(u1, m, 1) == swapped(swapped_times(u1, m, 0), m));
            assert(u == swapped(u1, m));
            assert(kept_above(raw, top, m) == kept_above(raw, top, m + 1));
            assert(u1[m + 1] == s[kept_above(raw, top, m + 1)]);
            assert(u[m] == s[kept_above(raw, top, m)]);
            assert(u[m + 1] == s[m]);
            assert forall|p: int| m <= p < top && raw.contains(p as usize) implies #[trigger] u[p + 1] == s[p] by {
                if p > m {
                    assert(u[p + 1] == u1[p + 1]);
                }
            }
            assert forall|i: int| m <= i <= top && (i == m || !raw.contains((i - 1) as usize)) implies #[trigger] u[i]
                == s[kept_above(raw, top, i)] by {
                if i > m + 1 {
                    assert(u[i] == u1[i]);
                }
            }
        } else {
            assert(count_in(raw, m) == 0);
            assert(u == u1);
            assert(kept_above(raw, top, m) == m);
            assert(u[m] == s[m]);
        }
    } else {
        assert(raised(s, raw, m) == s);
        assert(kept_above(raw, top, top) == top);
    }
}

/// Raising a selection steps each node of it up one place among the nodes
/// of its group, and the others keep their order. The selected places are
/// those of the ids the list holds, none of them the top one; a selected
/// node at place `p` comes to `p + 1`, and every other place holds the node
/// from the nearest place at it or above that the selection does not name
/// ([`kept_above`]); those places, from the bottom up, take the nodes left
/// out in the order they stood in. This holds for a selection that names no
/// node twice, in a group whose list fits in memory.
pub proof fn lemma_raising_steps_each_up(root: GroupView, ids: Seq<NodeId>)
    requires
        reordered(root, ids, true).1,
        ids.no_duplicates(),
        group_of(root, shared_parent(root, ids)->0)->0.children.len() <= usize::MAX,
    ensures
        ({
            let parent = shared_parent(root, ids)->0;
            let s = group_of(root, parent)->0.children;
            let sel = places_of(s, ids, ids.len() as int);
            let top = s.len() - 1;
            &&& !sel.contains(top as usize)
            &&& forall|k: int| 0 <= k < ids.len() && #[trigger] position_at(s, ids[k], 0) is Some ==> sel.contains(
                position_at(s, ids[k], 0)->0 as usize,
            )
            &&& forall|p: usize| #[trigger] sel.contains(p) ==> p < s.len() && ids.contains(id_of(s[p as int]))
            &&& group_of(reordered(root, ids, true).0, parent) matches Some(g)
            &&& g.children.len() == s.len()
            &&& forall|p: int| 0 <= p < s.len() && sel.contains(p as usize) ==> #[trigger] g.children[p + 1] == s[p]
            &&& forall|i: int| 0 <= i < s.len() && (i == 0 || !sel.contains((i - 1) as usize)) ==> #[trigger] g.children[i]
                == s[kept_above(sel, top, i)]
            &&& forall|i1: int, i2: int|
                0 <= i1 < i2 < s.len() && !sel.contains((i2 - 1) as usize) ==> #[trigger] kept_above(sel, top, i1)
                    < #[trigger] kept_above(sel, top, i2)
        }),
{
    let parent = shared_parent(root, ids)->0;
    let g = group_of(root, parent)->0;
    let s = g.children;
    let raw = places_of(s, ids, ids.len() as int);
    let top = s.len() - 1;
    lemma_places_distinct(s, ids, ids.len() as int);
    lemma_places_are_the_selection(s, ids, ids.len() as int);
    assert(ids.take(ids.len() as int) =~= ids);
    assert(raw[0] < s.len());
    let list = raised(s, raw, 0);
    lemma_raised_shape(s, raw, 0);
    let a = with_children(g, list);
    if parent != ROOT_ID {
        lemma_first_group_id(root.children, parent, 0);
    }
    lemma_put_twice(root, parent, a, a);
    assert(reordered(root, ids, true).0 == put_group(root, parent, a));
    assert(group_of(reordered(root, ids, true).0, parent) == Some(a));
    assert forall|p: int| 0 <= p < s.len() && raw.contains(p as usize) implies #[trigger] a.children[p + 1] == s[p] by {
        if p == top {
            assert(raw.contains(top as usize));
        }
    }
    assert forall|i: int| 0 <= i < s.len() && (i == 0 || !raw.contains((i - 1) as usize)) implies #[trigger] a.children[i]
        == s[kept_above(raw, top, i)] by {
        assert(list[i] == s[kept_above(raw, top, i)]);
    }
    assert forall|i1: int, i2: int|
        0 <= i1 < i2 < s.len() && !raw.contains((i2 - 1) as usize) implies #[trigger] kept_above(raw, top, i1)
            < #[trigger] kept_above(raw, top, i2) by {
        lemma_kept_above(raw, top, i1);
        lemma_kept_above(raw, top, i2);
        if kept_above(raw, top, i1) >= i2 {
            assert(raw.contains((i2 - 1) as usize));
        }
    }
}

} // verus!
