//! A selection put into a new group.
//!
//! The new group lands in the lowest group that holds every member, in the
//! place of the highest member there. Every member leaves the group it sat
//! in, and they keep the order they drew in.

use vstd::prelude::*;

use crate::scene::edit::{group_of, put_group, take_in, with_children};
use crate::scene::model::{
    Group, GroupView, Node, NodeId, NodeView, ROOT_ID, Shown, id_of, lemma_view_nodes,
    lemma_view_nodes_ext, nodes_view, view_node, view_nodes,
};
use crate::scene::select::{holds, normal_upto, normalize};
use crate::scene::tree::{highest_at, path_at};
use crate::scene::{Scene, lend_group, path_of, return_group, take_node};

verus! {

broadcast use lemma_view_nodes;

/// The ids of `sel` in the order the tree draws them, from place `k` of
/// `s` on, each the first time the walk meets it, after those in `acc`.
pub open spec fn order_at(s: Seq<NodeView>, sel: Seq<NodeId>, k: int, acc: Seq<NodeId>) -> Seq<NodeId>
    decreases s, s.len() - k,
{
    if k < 0 || k >= s.len() {
        acc
    } else {
        let id = id_of(s[k]);
        let met = if sel.contains(id) && !acc.contains(id) { acc.push(id) } else { acc };
        let inside = match s[k] {
            NodeView::Group(g) => order_at(g.children, sel, 0, met),
            _ => met,
        };
        order_at(s, sel, k + 1, inside)
    }
}

/// The first `n` ids of `ordered` that sit in the tree, each with its path.
pub open spec fn placed_members(root: GroupView, ordered: Seq<NodeId>, n: int) -> Seq<(Seq<usize>, NodeId)>
    decreases n,
{
    if n <= 0 || n > ordered.len() {
        Seq::empty()
    } else {
        let before = placed_members(root, ordered, n - 1);
        match path_at(root.children, ordered[n - 1], 0) {
            Some(path) => before.push((path, ordered[n - 1])),
            None => before,
        }
    }
}

/// Whether every path runs past `d + 1` places and agrees with the first
/// at place `d`.
pub open spec fn agree_at(paths: Seq<Seq<usize>>, d: int) -> bool {
    forall|m: int| 0 <= m < paths.len() ==> #[trigger] paths[m].len() > d + 1 && paths[m][d] == paths[0][d]
}

/// How deep a set of paths runs together, counting on from `d`.
pub open spec fn depth_from(paths: Seq<Seq<usize>>, d: nat) -> nat
    decreases paths[0].len() - d,
{
    if d + 1 < paths[0].len() && agree_at(paths, d as int) {
        depth_from(paths, d + 1)
    } else {
        d
    }
}

/// The group a path of places leads to from `g`, when every step is a
/// group.
pub open spec fn group_down(g: GroupView, path: Seq<usize>) -> Option<GroupView>
    decreases path.len(),
{
    if path.len() == 0 {
        Some(g)
    } else if path[0] < g.children.len() {
        match g.children[path[0] as int] {
            NodeView::Group(c) => group_down(c, path.drop_first()),
            _ => None,
        }
    } else {
        None
    }
}

/// The highest place at depth `d` among the first `n` paths.
pub open spec fn top_upto(paths: Seq<Seq<usize>>, d: int, n: int) -> int
    decreases n,
{
    if n <= 1 {
        paths[0][d] as int
    } else {
        let before = top_upto(paths, d, n - 1);
        if paths[n - 1][d] > before { paths[n - 1][d] as int } else { before }
    }
}

/// How many of the first `n` paths end at depth `d`, at a place no higher
/// than `highest`.
pub open spec fn gaps_upto(paths: Seq<Seq<usize>>, d: int, highest: int, n: int) -> nat
    decreases n,
{
    if n <= 0 {
        0
    } else {
        gaps_upto(paths, d, highest, n - 1) + if paths[n - 1].len() == d + 1 && paths[n - 1][d] <= highest { 1nat } else { 0nat }
    }
}

/// The tree after the first `n` ids are taken out, one after another, and
/// the nodes that came out, in order.
pub open spec fn taken_upto(root: GroupView, ids: Seq<NodeId>, n: int) -> (GroupView, Seq<NodeView>)
    decreases n,
{
    if n <= 0 || n > ids.len() {
        (root, Seq::empty())
    } else {
        let (tree, taken) = taken_upto(root, ids, n - 1);
        let (left, got) = take_in(tree, ids[n - 1]);
        (left, match got {
            Some(node) => taken.push(node),
            None => taken,
        })
    }
}

/// The place the new group takes: one over the highest member, less the
/// members that left the list below it, within the list.
pub open spec fn place_of(highest: int, gaps: int, len: int) -> int {
    let place = highest + 1 - gaps;
    if place <= 0 {
        0
    } else if place >= len {
        len
    } else {
        place
    }
}

/// A new group of these nodes, shown on both screens.
pub open spec fn new_group(id: NodeId, name: Seq<char>, children: Seq<NodeView>) -> GroupView {
    GroupView { id, name, shown: Shown { dm: true, tv: true }, children, ink: false }
}

/// The tree after a selection is put into a new group, and the id of that
/// group, or no id when nothing was grouped.
pub open spec fn grouping(root: GroupView, ids: Seq<NodeId>, name: Seq<char>) -> (GroupView, Option<NodeId>) {
    let sel = normal_upto(root, ids, ids.len() as int);
    let ordered = order_at(root.children, sel, 0, Seq::empty());
    let members = placed_members(root, ordered, ordered.len() as int);
    if sel.len() == 0 || members.len() == 0 {
        (root, None)
    } else {
        let id = (highest_at(root.children, 0, ROOT_ID as nat) + 1) as NodeId;
        let paths = members.map_values(|m: (Seq<usize>, NodeId)| m.0);
        let depth = depth_from(paths, 0);
        match group_down(root, paths[0].take(depth as int)) {
            None => (root, None),
            Some(holder) => {
                let highest = top_upto(paths, depth as int, paths.len() as int);
                let gaps = gaps_upto(paths, depth as int, highest, paths.len() as int);
                let ids_in_order = members.map_values(|m: (Seq<usize>, NodeId)| m.1);
                let (after, taken) = taken_upto(root, ids_in_order, ids_in_order.len() as int);
                match group_of(after, holder.id) {
                    None => (after, None),
                    Some(h) => {
                        let place = place_of(highest, gaps as int, h.children.len() as int);
                        let made = new_group(id, name, taken);
                        (
                            put_group(after, holder.id, with_children(h, h.children.insert(place, NodeView::Group(made)))),
                            Some(id),
                        )
                    },
                }
            },
        }
    }
}

proof fn lemma_path_nonempty(s: Seq<NodeView>, id: NodeId, k: int)
    ensures
        path_at(s, id, k) matches Some(p) ==> p.len() >= 1,
    decreases s, s.len() - k,
{
    if 0 <= k < s.len() && id_of(s[k]) != id {
        match s[k] {
            NodeView::Group(g) => {
                lemma_path_nonempty(g.children, id, 0);
                lemma_path_nonempty(s, id, k + 1);
            },
            _ => {
                lemma_path_nonempty(s, id, k + 1);
            },
        }
    }
}

fn collect_order(nodes: &Vec<Node>, sel: &Vec<NodeId>, acc: &mut Vec<NodeId>)
    ensures
        final(acc)@ == order_at(nodes_view(nodes), sel@, 0, old(acc)@),
    decreases nodes,
{
    let ghost s = nodes_view(nodes);
    let ghost start = acc@;
    let mut i: usize = 0;
    while i < nodes.len()
        invariant
            i <= nodes.len() == s.len(),
            s == nodes_view(nodes),
            order_at(s, sel@, 0, start) == order_at(s, sel@, i as int, acc@),
        decreases nodes.len() - i,
    {
        let ghost before = acc@;
        proof {
            assert(s[i as int] == nodes@[i as int]@);
        }
        let id = nodes[i].id();
        if holds(sel.as_slice(), id) && !holds(acc.as_slice(), id) {
            acc.push(id);
        }
        let ghost met = acc@;
        match &nodes[i] {
            Node::Group(group) => {
                collect_order(&group.children, sel, acc);
            },
            _ => {},
        }
        i += 1;
    }
}

/// Whether every path runs past `d + 1` places and agrees with the first
/// at place `d`.
fn all_agree(paths: &Vec<Vec<usize>>, d: usize) -> (r: bool)
    requires
        paths@.len() > 0,
        paths@[0]@.len() > d,
    ensures
        r == agree_at(paths@.map_values(|p: Vec<usize>| p@), d as int),
{
    let ghost pv = paths@.map_values(|p: Vec<usize>| p@);
    let first = paths[0][d];
    let mut m: usize = 0;
    while m < paths.len()
        invariant
            m <= paths@.len(),
            pv == paths@.map_values(|p: Vec<usize>| p@),
            paths@.len() > 0,
            first == pv[0][d as int],
            forall|j: int| 0 <= j < m ==> #[trigger] pv[j].len() > d + 1 && pv[j][d as int] == pv[0][d as int],
        decreases paths.len() - m,
    {
        assert(pv[m as int] == paths@[m as int]@);
        let p = &paths[m];
        if !(p.len() > d && p.len() - d > 1 && p[d] == first) {
            return false;
        }
        m += 1;
    }
    true
}

/// How deep the paths of a selection run together.
pub fn shared_depth(paths: &Vec<Vec<usize>>) -> (r: usize)
    requires
        paths@.len() > 0,
    ensures
        r == depth_from(paths@.map_values(|p: Vec<usize>| p@), 0),
        r > 0 ==> forall|m: int| 0 <= m < paths@.len() ==> (#[trigger] paths@[m])@.len() > r,
        (forall|m: int| 0 <= m < paths@.len() ==> (#[trigger] paths@[m])@.len() >= 1) ==> forall|m: int|
            0 <= m < paths@.len() ==> (#[trigger] paths@[m])@.len() > r,
{
    let ghost pv = paths@.map_values(|p: Vec<usize>| p@);
    let mut depth: usize = 0;
    while paths[0].len() > depth && paths[0].len() - depth > 1 && all_agree(paths, depth)
        invariant
            pv == paths@.map_values(|p: Vec<usize>| p@),
            paths@.len() > 0,
            depth == 0 || depth < paths@[0]@.len(),
            depth_from(pv, 0) == depth_from(pv, depth as nat),
            depth > 0 ==> forall|m: int| 0 <= m < paths@.len() ==> (#[trigger] paths@[m])@.len() > depth,
        decreases paths@[0]@.len() - depth,
    {
        proof {
            assert forall|m: int| 0 <= m < paths@.len() implies (#[trigger] paths@[m])@.len() > depth + 1 by {
                assert(pv[m] == paths@[m]@);
            }
        }
        depth += 1;
    }
    depth
}

/// The group at a path of places from the root.
fn group_at(scene: &Scene, path: &Vec<usize>, depth: usize) -> (r: Option<NodeId>)
    requires
        depth <= path@.len(),
    ensures
        r == match group_down(scene@, path@.take(depth as int)) {
            Some(g) => Some(g.id),
            None => None,
        },
{
    let mut group: &Group = &scene.root;
    let mut i: usize = 0;
    while i < depth
        invariant
            i <= depth <= path@.len(),
            group_down(scene@, path@.take(depth as int)) == group_down(group@, path@.subrange(i as int, depth as int)),
        decreases depth - i,
    {
        let place = path[i];
        proof {
            assert(path@.subrange(i as int, depth as int).drop_first() =~= path@.subrange(i + 1, depth as int));
            assert(path@.subrange(i as int, depth as int)[0] == place);
        }
        proof {
            assert(group@.children == view_nodes(group.children@));
        }
        if place >= group.children.len() {
            return None;
        }
        proof {
            assert(group@.children[place as int] == group.children@[place as int]@);
        }
        match &group.children[place] {
            Node::Group(inner) => {
                group = inner;
            },
            _ => {
                return None;
            },
        }
        i += 1;
    }
    proof {
        assert(path@.subrange(i as int, depth as int).len() == 0);
        assert(path@.take(depth as int) =~= path@.subrange(0, depth as int));
    }
    Some(group.id)
}

/// Puts a selection into a new group, and gives back its id.
///
/// The new group lands in the lowest group that holds every member, in the
/// place of the highest member there. Every member leaves the group it sat
/// in, and they keep the order they drew in. A selection of nothing the
/// tree holds makes no group.
pub fn group_selection(scene: &mut Scene, ids: &[NodeId], name: String) -> (r: Option<NodeId>)
    requires
        highest_at(old(scene)@.children, 0, ROOT_ID as nat) < u64::MAX,
    ensures
        (final(scene)@, r) == grouping(old(scene)@, ids@, name@),
{
    let ghost was = scene@;
    let sel = normalize(scene, ids);
    if sel.len() == 0 {
        return None;
    }
    let mut ordered: Vec<NodeId> = Vec::new();
    collect_order(&scene.root.children, &sel, &mut ordered);
    let ghost members = placed_members(was, ordered@, ordered@.len() as int);
    let mut paths: Vec<Vec<usize>> = Vec::new();
    let mut mids: Vec<NodeId> = Vec::new();
    let mut n: usize = 0;
    while n < ordered.len()
        invariant
            n <= ordered@.len(),
            scene@ == was,
            paths@.map_values(|p: Vec<usize>| p@) == placed_members(was, ordered@, n as int).map_values(|m: (Seq<usize>, NodeId)| m.0),
            mids@ == placed_members(was, ordered@, n as int).map_values(|m: (Seq<usize>, NodeId)| m.1),
            forall|m: int| 0 <= m < paths@.len() ==> (#[trigger] paths@[m])@.len() >= 1,
        decreases ordered.len() - n,
    {
        let id = ordered[n];
        let ghost before = placed_members(was, ordered@, n as int);
        match path_of(scene, id) {
            Some(path) => {
                proof {
                    lemma_path_nonempty(was.children, id, 0);
                }
                let ghost old_paths = paths@;
                let ghost p = path@;
                paths.push(path);
                mids.push(id);
                proof {
                    let now = placed_members(was, ordered@, n + 1);
                    assert(now == before.push((p, id)));
                    assert(paths@ == old_paths.push(paths@[paths@.len() - 1]));
                    assert(paths@[paths@.len() - 1]@ == p);
                    assert(paths@.map_values(|q: Vec<usize>| q@) =~= old_paths.map_values(|q: Vec<usize>| q@).push(p));
                    assert(paths@.map_values(|q: Vec<usize>| q@) =~= now.map_values(|m: (Seq<usize>, NodeId)| m.0));
                    assert(mids@ =~= now.map_values(|m: (Seq<usize>, NodeId)| m.1));
                }
            },
            None => {},
        }
        n += 1;
    }
    if paths.len() == 0 {
        return None;
    }
    let id = scene.next_id();
    let depth = shared_depth(&paths);
    let ghost pv = paths@.map_values(|p: Vec<usize>| p@);
    let holder = match group_at(scene, &paths[0], depth) {
        Some(holder) => holder,
        None => {
            return None;
        },
    };
    let mut highest: usize = paths[0][depth];
    let mut gaps: usize = 0;
    let mut m: usize = 0;
    while m < paths.len()
        invariant
            m <= paths@.len(),
            paths@.len() > 0,
            pv == paths@.map_values(|p: Vec<usize>| p@),
            forall|j: int| 0 <= j < paths@.len() ==> (#[trigger] paths@[j])@.len() > depth,
            m == 0 ==> highest == pv[0][depth as int],
            m > 0 ==> highest == top_upto(pv, depth as int, m as int),
        decreases paths.len() - m,
    {
        assert(pv[m as int] == paths@[m as int]@);
        if paths[m][depth] > highest {
            highest = paths[m][depth];
        }
        m += 1;
    }
    let mut k: usize = 0;
    while k < paths.len()
        invariant
            k <= paths@.len(),
            pv == paths@.map_values(|p: Vec<usize>| p@),
            forall|j: int| 0 <= j < paths@.len() ==> (#[trigger] paths@[j])@.len() > depth,
            gaps == gaps_upto(pv, depth as int, highest as int, k as int),
            gaps <= k,
        decreases paths.len() - k,
    {
        assert(pv[k as int] == paths@[k as int]@);
        if paths[k].len() == depth + 1 && paths[k][depth] <= highest {
            gaps += 1;
        }
        k += 1;
    }
    let mut taken: Vec<Node> = Vec::new();
    let mut t: usize = 0;
    while t < mids.len()
        invariant
            t <= mids@.len(),
            (scene@, nodes_view(&taken)) == taken_upto(was, mids@, t as int),
        decreases mids.len() - t,
    {
        let ghost tree = scene@;
        let ghost before = taken@;
        match take_node(scene, mids[t]) {
            Some(node) => {
                taken.push(node);
                proof {
                    lemma_view_nodes_ext(taken@, view_nodes(before).push(node@));
                }
            },
            None => {},
        }
        t += 1;
    }
    let ghost after = scene@;
    let mut group = Group::new(id, name);
    group.children = taken;
    let ghost made = group@;
    match lend_group(scene, holder) {
        None => None,
        Some(mut h) => {
            let ghost target = h@;
            let ghost old_children = h.children@;
            let len = h.children.len();
            let place = if gaps > highest {
                0
            } else if highest - gaps >= len {
                len
            } else {
                highest - gaps + 1
            };
            h.children.insert(place, Node::Group(group));
            proof {
                assert(target.children == view_nodes(old_children));
                assert forall|j: int| 0 <= j < h.children@.len() implies view_node(#[trigger] h.children@[j]) == target.children.insert(place as int, NodeView::Group(made))[j] by {
                    if j < place {
                        assert(h.children@[j] == old_children[j]);
                    } else if j > place {
                        assert(h.children@[j] == old_children[j - 1]);
                    }
                }
                lemma_view_nodes_ext(h.children@, target.children.insert(place as int, NodeView::Group(made)));
                assert(h@ =~= with_children(target, target.children.insert(place as int, NodeView::Group(made))));
            }
            return_group(scene, holder, h, Ghost(after));
            Some(id)
        },
    }
}

/// Each node taken out of a tree, one id after another, holds one of the
/// ids it was taken by.
proof fn lemma_taken_members(root: GroupView, ids: Seq<NodeId>, n: int)
    ensures
        forall|j: int| 0 <= j < taken_upto(root, ids, n).1.len() ==> ids.contains(
            #[trigger] id_of(taken_upto(root, ids, n).1[j]),
        ),
    decreases n,
{
    if 0 < n <= ids.len() {
        lemma_taken_members(root, ids, n - 1);
        let (tree, taken) = taken_upto(root, ids, n - 1);
        crate::scene::moves::lemma_taken_id(tree, ids[n - 1]);
        let now = taken_upto(root, ids, n).1;
        assert forall|j: int| 0 <= j < now.len() implies ids.contains(#[trigger] id_of(now[j])) by {
            if j < taken.len() {
                assert(now[j] == taken[j]);
            } else {
                assert(id_of(now[j]) == ids[n - 1]);
            }
        }
    }
}

/// The highest place at depth `d` among the first `n` paths is the place
/// of one of them, and none of them stands higher.
pub proof fn lemma_top_is_highest(paths: Seq<Seq<usize>>, d: int, n: int)
    requires
        1 <= n,
    ensures
        forall|m: int| 0 <= m < n ==> #[trigger] paths[m][d] <= top_upto(paths, d, n),
        exists|m: int| 0 <= m < n && #[trigger] paths[m][d] == top_upto(paths, d, n),
    decreases n,
{
    if n > 1 {
        lemma_top_is_highest(paths, d, n - 1);
        let before = top_upto(paths, d, n - 1);
        if paths[n - 1][d] > before {
            assert(paths[n - 1][d] == top_upto(paths, d, n));
        } else {
            let m = choose|m: int| 0 <= m < n - 1 && #[trigger] paths[m][d] == before;
            assert(paths[m][d] == top_upto(paths, d, n));
        }
    } else {
        assert(paths[0][d] == top_upto(paths, d, n));
    }
}

/// Whether a path ends at depth `d`, at a place no higher than `highest`.
pub open spec fn ends_at_or_below(d: int, highest: int) -> spec_fn(Seq<usize>) -> bool {
    |p: Seq<usize>| p.len() == d + 1 && p[d] <= highest
}

/// The count [`gaps_upto`] keeps is the number of the first `n` paths that
/// end at depth `d`, at a place no higher than `highest`.
pub proof fn lemma_gaps_count(paths: Seq<Seq<usize>>, d: int, highest: int, n: int)
    requires
        0 <= n <= paths.len(),
    ensures
        gaps_upto(paths, d, highest, n) == paths.take(n).filter(ends_at_or_below(d, highest)).len(),
    decreases n,
{
    reveal(Seq::filter);
    if n > 0 {
        lemma_gaps_count(paths, d, highest, n - 1);
        assert(paths.take(n).drop_last() =~= paths.take(n - 1));
        assert(paths.take(n).last() == paths[n - 1]);
    }
}

/// What grouping a selection does: the new group takes an id no node of
/// the tree held, it stands in the group that holds every member, at the
/// place one over the highest place any member had at the depth they
/// share, less the members that left that list below it, with the given
/// name, and it holds the members
/// that were taken out, each one of the selection's placed members, in the
/// order they were taken.
pub proof fn lemma_grouping_makes_the_group(root: GroupView, ids: Seq<NodeId>, name: Seq<char>)
    requires
        grouping(root, ids, name).1 is Some,
        highest_at(root.children, 0, ROOT_ID as nat) < u64::MAX,
    ensures
        ({
            let sel = normal_upto(root, ids, ids.len() as int);
            let ordered = order_at(root.children, sel, 0, Seq::empty());
            let members = placed_members(root, ordered, ordered.len() as int);
            let paths = members.map_values(|m: (Seq<usize>, NodeId)| m.0);
            let depth = depth_from(paths, 0);
            let holder = group_down(root, paths[0].take(depth as int))->0;
            let highest = top_upto(paths, depth as int, paths.len() as int);
            let gaps = gaps_upto(paths, depth as int, highest, paths.len() as int);
            let ids_in_order = members.map_values(|m: (Seq<usize>, NodeId)| m.1);
            let (after, taken) = taken_upto(root, ids_in_order, ids_in_order.len() as int);
            let h = group_of(after, holder.id)->0;
            let place = place_of(highest, gaps as int, h.children.len() as int);
            let id = grouping(root, ids, name).1->0;
            &&& paths.len() >= 1
            &&& forall|m: int| 0 <= m < paths.len() ==> #[trigger] paths[m][depth as int] <= highest
            &&& exists|m: int| 0 <= m < paths.len() && #[trigger] paths[m][depth as int] == highest
            &&& gaps == paths.filter(ends_at_or_below(depth as int, highest)).len()
            &&& 0 <= highest + 1 - gaps <= h.children.len() ==> place == highest + 1 - gaps
            &&& id == highest_at(root.children, 0, ROOT_ID as nat) + 1
            &&& id != ROOT_ID
            &&& !crate::scene::repair_law::ids_in(root.children).contains(id)
            &&& group_of(grouping(root, ids, name).0, holder.id) matches Some(g)
            &&& 0 <= place < g.children.len()
            &&& g.children[place] == NodeView::Group(new_group(id, name, taken))
            &&& forall|j: int| 0 <= j < taken.len() ==> ids_in_order.contains(#[trigger] id_of(taken[j]))
        }),
{
    let sel = normal_upto(root, ids, ids.len() as int);
    let ordered = order_at(root.children, sel, 0, Seq::empty());
    let members = placed_members(root, ordered, ordered.len() as int);
    let paths = members.map_values(|m: (Seq<usize>, NodeId)| m.0);
    let depth = depth_from(paths, 0);
    let holder = group_down(root, paths[0].take(depth as int))->0;
    let highest = top_upto(paths, depth as int, paths.len() as int);
    let gaps = gaps_upto(paths, depth as int, highest, paths.len() as int);
    let ids_in_order = members.map_values(|m: (Seq<usize>, NodeId)| m.1);
    let (after, taken) = taken_upto(root, ids_in_order, ids_in_order.len() as int);
    let h = group_of(after, holder.id)->0;
    let place = place_of(highest, gaps as int, h.children.len() as int);
    let id = (highest_at(root.children, 0, ROOT_ID as nat) + 1) as NodeId;
    let made = new_group(id, name, taken);
    let a = with_children(h, h.children.insert(place, NodeView::Group(made)));
    crate::scene::repair_law::lemma_next_id_is_free(root);
    if holder.id != ROOT_ID {
        crate::scene::edit::lemma_first_group_id(after.children, holder.id, 0);
    }
    crate::scene::edit::lemma_put_twice(after, holder.id, a, a);
    assert(a.children[place] == NodeView::Group(made));
    lemma_taken_members(root, ids_in_order, ids_in_order.len() as int);
    lemma_top_is_highest(paths, depth as int, paths.len() as int);
    lemma_gaps_count(paths, depth as int, highest, paths.len() as int);
    assert(paths.take(paths.len() as int) =~= paths);
}

} // verus!
