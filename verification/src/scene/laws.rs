//! What the changes to the tree promise together: the value a change wrote
//! over comes back when it is reverted.

use vstd::prelude::*;

use crate::scene::change::{
    first_leaf_at, leaf_shown_at, shown_now, shown_set, with_shown,
};
use crate::scene::edit::{
    first_group_at, group_of, lemma_first_group_id, lemma_put_frame, lemma_put_twice,
    put_group, put_group_at, with_children,
};
use crate::scene::model::{GroupView, Leaf, NodeId, NodeView, ROOT_ID, Shown, id_of};
use crate::scene::order::lemma_put_group_same;
use crate::scene::tree::{children_in, find_at};
use crate::scene::change::{SetName, SetShown, lemma_rename_reverts, renamed};
use crate::scene::reshape_law::{ids_apart, kin, lemma_reshape_redoes, lemma_reshape_reverts, matched};
use crate::scene::restructure::{Restructure, lists_of, lists_view};
use crate::scene::steps::{TreeChange, applied, reverted};
use crate::history::{HistoryView, STEPS, Step, holding_change, ran, settled, took_back};

verus! {

/// The first node of an id, when it is a group, is the first group of that
/// id; and a list with no node of an id holds no group of it.
proof fn lemma_found_group_is_first(s: Seq<NodeView>, id: NodeId, k: int)
    ensures
        find_at(s, id, k) matches Some(NodeView::Group(g)) ==> first_group_at(s, id, k) == Some(g),
        find_at(s, id, k) is None ==> first_group_at(s, id, k) is None,
    decreases s, s.len() - k,
{
    if 0 <= k < s.len() && id_of(s[k]) != id {
        match s[k] {
            NodeView::Group(h) => {
                lemma_found_group_is_first(h.children, id, 0);
                lemma_found_group_is_first(s, id, k + 1);
            },
            _ => {
                lemma_found_group_is_first(s, id, k + 1);
            },
        }
    }
}

/// A group put in the place of the first node of its id, a group, is the
/// node a search finds next.
proof fn lemma_find_after_put(s: Seq<NodeView>, id: NodeId, new: GroupView, k: int)
    requires
        new.id == id,
        find_at(s, id, k) matches Some(NodeView::Group(_)),
    ensures
        find_at(put_group_at(s, id, new, k), id, k) == Some(NodeView::Group(new)),
    decreases s, s.len() - k,
{
    lemma_found_group_is_first(s, id, k);
    let t = put_group_at(s, id, new, k);
    if id_of(s[k]) == id {
        assert(t[k] == NodeView::Group(new));
    } else {
        match s[k] {
            NodeView::Group(h) => {
                lemma_found_group_is_first(h.children, id, 0);
                if find_at(h.children, id, 0) is Some {
                    lemma_find_after_put(h.children, id, new, 0);
                    assert(t[k] == NodeView::Group(GroupView { children: put_group_at(h.children, id, new, 0), ..h }));
                } else {
                    lemma_put_frame(s, id, new, k + 1);
                    assert(t[k] == s[k]);
                    lemma_find_after_put(s, id, new, k + 1);
                }
            },
            _ => {
                lemma_put_frame(s, id, new, k + 1);
                assert(t[k] == s[k]);
                lemma_find_after_put(s, id, new, k + 1);
            },
        }
    }
}

/// Whether a node is a drawing (with `ink`) or a map (without).
pub open spec fn leaf_kind(n: NodeView, ink: bool) -> bool {
    if ink { n is Stroke } else { n is Asset }
}

/// The leaf inside a map or a drawing.
pub open spec fn leaf_of(n: NodeView) -> Leaf {
    match n {
        NodeView::Asset(l) => l,
        NodeView::Stroke(l) => l,
        NodeView::Group(g) => Leaf { id: g.id, shown: g.shown },
    }
}

/// The first node of an id, when it is a map or a drawing, is the first
/// leaf of that kind and id; a list with no node of an id holds no leaf of
/// it.
proof fn lemma_found_leaf_is_first(s: Seq<NodeView>, id: NodeId, ink: bool, k: int)
    ensures
        match find_at(s, id, k) {
            Some(n) => leaf_kind(n, ink) ==> first_leaf_at(s, id, ink, k) == Some(leaf_of(n)),
            None => first_leaf_at(s, id, ink, k) is None,
        },
    decreases s, s.len() - k,
{
    if 0 <= k < s.len() && id_of(s[k]) != id {
        match s[k] {
            NodeView::Group(h) => {
                lemma_found_leaf_is_first(h.children, id, ink, 0);
                lemma_found_leaf_is_first(s, id, ink, k + 1);
            },
            _ => {
                lemma_found_leaf_is_first(s, id, ink, k + 1);
            },
        }
    }
}

/// New switches on the first leaf of an id leave it the node a search
/// finds, with those switches.
proof fn lemma_find_after_leaf_set(s: Seq<NodeView>, id: NodeId, ink: bool, shown: Shown, k: int)
    requires
        find_at(s, id, k) matches Some(n) && leaf_kind(n, ink),
    ensures
        find_at(leaf_shown_at(s, id, ink, shown, k), id, k) matches Some(n) && leaf_kind(n, ink) && leaf_of(n) == (Leaf { id, shown }),
    decreases s, s.len() - k,
{
    lemma_found_leaf_is_first(s, id, ink, k);
    let t = leaf_shown_at(s, id, ink, shown, k);
    if id_of(s[k]) == id {
        match s[k] {
            NodeView::Asset(l) => {
                assert(t[k] == NodeView::Asset(Leaf { id, shown }));
            },
            NodeView::Stroke(l) => {
                assert(t[k] == NodeView::Stroke(Leaf { id, shown }));
            },
            _ => {},
        }
    } else {
        match s[k] {
            NodeView::Group(h) => {
                lemma_found_leaf_is_first(h.children, id, ink, 0);
                if find_at(h.children, id, 0) is Some {
                    lemma_find_after_leaf_set(h.children, id, ink, shown, 0);
                    assert(t[k] == NodeView::Group(with_children(h, leaf_shown_at(h.children, id, ink, shown, 0))));
                } else {
                    lemma_leaf_frame(s, id, ink, shown, k + 1);
                    assert(t[k] == s[k]);
                    lemma_find_after_leaf_set(s, id, ink, shown, k + 1);
                }
            },
            NodeView::Asset(l) => {
                lemma_leaf_frame(s, id, ink, shown, k + 1);
                assert(t[k] == s[k]);
                lemma_find_after_leaf_set(s, id, ink, shown, k + 1);
            },
            NodeView::Stroke(l) => {
                lemma_leaf_frame(s, id, ink, shown, k + 1);
                assert(t[k] == s[k]);
                lemma_find_after_leaf_set(s, id, ink, shown, k + 1);
            },
        }
    }
}

/// A set of switches keeps the length of a list and every place before `k`.
proof fn lemma_leaf_frame(s: Seq<NodeView>, id: NodeId, ink: bool, shown: Shown, k: int)
    ensures
        leaf_shown_at(s, id, ink, shown, k).len() == s.len(),
        forall|j: int| 0 <= j < k && j < s.len() ==> #[trigger] leaf_shown_at(s, id, ink, shown, k)[j] == s[j],
    decreases s.len() - k,
{
    if 0 <= k < s.len() {
        lemma_leaf_frame(s, id, ink, shown, k + 1);
    }
}

/// Switches set twice on one leaf are the second ones, and the leaf a
/// search finds carries the first.
proof fn lemma_leaf_set_twice(s: Seq<NodeView>, id: NodeId, ink: bool, a: Shown, b: Shown, k: int)
    requires
        first_leaf_at(s, id, ink, k) is Some,
    ensures
        first_leaf_at(leaf_shown_at(s, id, ink, a, k), id, ink, k) == Some(Leaf { id, shown: a }),
        leaf_shown_at(leaf_shown_at(s, id, ink, a, k), id, ink, b, k) == leaf_shown_at(s, id, ink, b, k),
    decreases s, s.len() - k,
{
    let t = leaf_shown_at(s, id, ink, a, k);
    lemma_leaf_frame(s, id, ink, a, k + 1);
    match s[k] {
        NodeView::Group(g) => {
            if first_leaf_at(g.children, id, ink, 0) is Some {
                lemma_leaf_set_twice(g.children, id, ink, a, b, 0);
                let inner = leaf_shown_at(g.children, id, ink, a, 0);
                assert(t[k] == NodeView::Group(with_children(g, inner)));
                assert(t.update(k, NodeView::Group(with_children(with_children(g, inner), leaf_shown_at(inner, id, ink, b, 0))))
                    =~= s.update(k, NodeView::Group(with_children(g, leaf_shown_at(g.children, id, ink, b, 0)))));
            } else {
                assert(t[k] == s[k]);
                lemma_leaf_set_twice(s, id, ink, a, b, k + 1);
            }
        },
        NodeView::Asset(l) => {
            if !ink && l.id == id {
                assert(t.update(k, NodeView::Asset(Leaf { id, shown: b })) =~= s.update(k, NodeView::Asset(Leaf { id, shown: b })));
            } else {
                assert(t[k] == s[k]);
                lemma_leaf_set_twice(s, id, ink, a, b, k + 1);
            }
        },
        NodeView::Stroke(l) => {
            if ink && l.id == id {
                assert(t.update(k, NodeView::Stroke(Leaf { id, shown: b })) =~= s.update(k, NodeView::Stroke(Leaf { id, shown: b })));
            } else {
                assert(t[k] == s[k]);
                lemma_leaf_set_twice(s, id, ink, a, b, k + 1);
            }
        },
    }
}

/// Setting the switches a leaf already has changes nothing.
proof fn lemma_leaf_set_same(s: Seq<NodeView>, id: NodeId, ink: bool, k: int)
    requires
        first_leaf_at(s, id, ink, k) is Some,
    ensures
        leaf_shown_at(s, id, ink, first_leaf_at(s, id, ink, k)->0.shown, k) == s,
    decreases s, s.len() - k,
{
    let shown = first_leaf_at(s, id, ink, k)->0.shown;
    match s[k] {
        NodeView::Group(g) => {
            if first_leaf_at(g.children, id, ink, 0) is Some {
                lemma_leaf_set_same(g.children, id, ink, 0);
                assert(with_children(g, g.children) =~= g);
                assert(s.update(k, NodeView::Group(g)) =~= s);
            } else {
                lemma_leaf_set_same(s, id, ink, k + 1);
            }
        },
        NodeView::Asset(l) => {
            if !ink && l.id == id {
                assert(s.update(k, NodeView::Asset(Leaf { id, shown })) =~= s);
            } else {
                lemma_leaf_set_same(s, id, ink, k + 1);
            }
        },
        NodeView::Stroke(l) => {
            if ink && l.id == id {
                assert(s.update(k, NodeView::Stroke(Leaf { id, shown })) =~= s);
            } else {
                lemma_leaf_set_same(s, id, ink, k + 1);
            }
        },
    }
}

/// A change of screens takes back exactly: the switches that stood before
/// come back when the change is reverted, and nothing else in the tree
/// moves.
pub proof fn lemma_shown_reverts(root: GroupView, id: NodeId, after: Shown)
    requires
        shown_now(root, id) is Some,
    ensures
        shown_set(shown_set(root, id, after), id, shown_now(root, id)->0) == root,
{
    let before = shown_now(root, id)->0;
    let once = shown_set(root, id, after);
    if children_in(root, id) is Some {
        let g = group_of(root, id)->0;
        if id != ROOT_ID {
            lemma_first_group_id(root.children, id, 0);
            lemma_found_group_is_first(root.children, id, 0);
            lemma_find_after_put(root.children, id, with_shown(g, after), 0);
            assert(children_in(once, id) is Some);
        }
        lemma_put_twice(root, id, with_shown(g, after), with_shown(g, before));
        assert(with_shown(g, before) =~= g);
        lemma_put_group_same(root, id);
    } else {
        let ink = find_at(root.children, id, 0) matches Some(NodeView::Stroke(_));
        lemma_found_leaf_is_first(root.children, id, ink, 0);
        lemma_found_leaf_is_first(root.children, id, !ink, 0);
        let n = find_at(root.children, id, 0)->0;
        assert(leaf_kind(n, ink));
        lemma_find_after_leaf_set(root.children, id, ink, after, 0);
        lemma_leaf_set_twice(root.children, id, ink, after, before, 0);
        lemma_leaf_set_same(root.children, id, ink, 0);
        let twice = leaf_shown_at(leaf_shown_at(root.children, id, ink, after, 0), id, ink, before, 0);
        assert(twice == root.children);
        assert(with_children(with_children(root, leaf_shown_at(root.children, id, ink, after, 0)), twice) =~= root);
    }
}

/// Whether a change, written into this tree, comes back out of it exactly.
pub open spec fn takes_back(root: GroupView, change: TreeChange) -> bool {
    reverted(applied(root, change), change) == root
}

/// A rename whose old name is the name the group carries takes back
/// exactly.
pub proof fn lemma_name_takes_back(root: GroupView, change: SetName)
    requires
        group_of(root, change.id) matches Some(g) && g.name == change.before@,
    ensures
        takes_back(root, TreeChange::Name(change)),
{
    lemma_rename_reverts(root, change.id, change.after@);
}

/// A change of screens whose old switches are the ones the node carries
/// takes back exactly.
pub proof fn lemma_shown_takes_back(root: GroupView, change: SetShown)
    requires
        shown_now(root, change.id) == Some(change.before),
    ensures
        takes_back(root, TreeChange::Shown(change)),
{
    lemma_shown_reverts(root, change.id, change.after);
}

/// A restructure read off two trees of a scene takes back exactly: undone
/// in the tree it made it gives the tree that stood, and written again
/// there it gives the tree it made.
pub proof fn lemma_restructure_takes_back(change: Restructure, was: GroupView, now: GroupView)
    requires
        lists_view(change.before@) == lists_of(was, now).0,
        lists_view(change.after@) == lists_of(was, now).1,
        was.id == ROOT_ID,
        now.id == ROOT_ID,
        matched(was, now),
        kin(was, now),
        ids_apart(was),
        ids_apart(now),
    ensures
        reverted(now, TreeChange::Tree(change)) == was,
        applied(was, TreeChange::Tree(change)) == now,
        takes_back(was, TreeChange::Tree(change)),
{
    lemma_reshape_reverts(was, now);
    lemma_reshape_redoes(was, now);
}

/// A change run into the scene and then undone leaves the scene as it
/// stood, when the change takes back exactly; the undo reverts that very
/// change, and a redo writes the scene it made again.
pub proof fn lemma_undo_puts_the_scene_back(h: HistoryView<TreeChange>, root: GroupView, change: TreeChange, at: u64)
    requires
        takes_back(root, change),
    ensures
        ran(h, change, at).done.len() > 0,
        ran(h, change, at).done.last().change == change,
        reverted(applied(root, change), ran(h, change, at).done.last().change) == root,
        took_back(ran(h, change, at)).undone.last().change == change,
        applied(reverted(applied(root, change), change), took_back(ran(h, change, at)).undone.last().change)
            == applied(root, change),
{
}

/// The stack once it held the frames of a drag, one change after another.
pub open spec fn held_frames(h: HistoryView<TreeChange>, frames: Seq<(TreeChange, u64)>) -> HistoryView<TreeChange>
    decreases frames.len(),
{
    if frames.len() == 0 {
        h
    } else {
        holding_change(held_frames(h, frames.drop_last()), frames.last().0, frames.last().1)
    }
}

proof fn lemma_frames_hold_the_last(h: HistoryView<TreeChange>, frames: Seq<(TreeChange, u64)>)
    requires
        frames.len() > 0,
    ensures
        held_frames(h, frames) == holding_change(h, frames.last().0, frames.last().1),
    decreases frames.len(),
{
    if frames.len() > 1 {
        lemma_frames_hold_the_last(h, frames.drop_last());
    } else {
        assert(frames.drop_last().len() == 0);
        assert(held_frames(h, frames.drop_last()) == h);
    }
}

/// A drag of many frames is one step: once it settles, the stack holds one
/// more step, the last frame's change, and an undo takes the scene back to
/// where the drag started when that change takes back exactly there.
pub proof fn lemma_drag_goes_back_in_one_step(
    h: HistoryView<TreeChange>,
    root: GroupView,
    frames: Seq<(TreeChange, u64)>,
)
    requires
        h.open is None,
        h.done.len() < STEPS,
        frames.len() > 0,
        takes_back(root, frames.last().0),
    ensures
        settled(held_frames(h, frames)).done == h.done.push(Step { change: frames.last().0, at: frames.last().1 }),
        settled(held_frames(h, frames)).open is None,
        took_back(settled(held_frames(h, frames))).done == h.done,
        reverted(applied(root, frames.last().0), settled(held_frames(h, frames)).done.last().change) == root,
{
    lemma_frames_hold_the_last(h, frames);
    let d = settled(held_frames(h, frames));
    assert(d.done == h.done.push(Step { change: frames.last().0, at: frames.last().1 }));
    assert(took_back(d).done =~= h.done);
}

/// Whether a change writes over all that an earlier one wrote: the tree
/// ends the same whether or not the earlier one came first.
pub open spec fn overwritten_by(first: TreeChange, last: TreeChange) -> bool {
    forall|root: GroupView| #[trigger] applied(applied(root, first), last) == applied(root, last)
}

/// The scene once each frame of a drag was written into it in turn.
pub open spec fn dragged(root: GroupView, frames: Seq<(TreeChange, u64)>) -> GroupView
    decreases frames.len(),
{
    if frames.len() == 0 {
        root
    } else {
        applied(dragged(root, frames.drop_last()), frames.last().0)
    }
}

proof fn lemma_dragged_then(root: GroupView, frames: Seq<(TreeChange, u64)>, last: TreeChange)
    requires
        forall|i: int| 0 <= i < frames.len() ==> overwritten_by(#[trigger] frames[i].0, last),
    ensures
        applied(dragged(root, frames), last) == applied(root, last),
    decreases frames.len(),
{
    if frames.len() > 0 {
        let rest = frames.drop_last();
        assert forall|i: int| 0 <= i < rest.len() implies overwritten_by(#[trigger] rest[i].0, last) by {
            assert(rest[i] == frames[i]);
        }
        lemma_dragged_then(root, rest, last);
        assert(overwritten_by(frames[frames.len() - 1].0, last));
        assert(applied(applied(dragged(root, rest), frames.last().0), last) == applied(dragged(root, rest), last));
    }
}

/// A drag of many frames, each written into the scene as it comes, is one
/// step: when every frame is written over by the last one, the scene ends
/// as the last frame alone leaves it, the stack holds that one step, and
/// an undo puts the scene back where the drag started, when the last
/// frame takes back exactly there.
pub proof fn lemma_drag_in_the_scene_goes_back(
    h: HistoryView<TreeChange>,
    root: GroupView,
    frames: Seq<(TreeChange, u64)>,
)
    requires
        h.open is None,
        h.done.len() < STEPS,
        frames.len() > 0,
        forall|i: int| 0 <= i < frames.len() - 1 ==> overwritten_by(#[trigger] frames[i].0, frames.last().0),
        takes_back(root, frames.last().0),
    ensures
        dragged(root, frames) == applied(root, frames.last().0),
        settled(held_frames(h, frames)).done == h.done.push(Step { change: frames.last().0, at: frames.last().1 }),
        took_back(settled(held_frames(h, frames))).done == h.done,
        reverted(dragged(root, frames), settled(held_frames(h, frames)).done.last().change) == root,
{
    let rest = frames.drop_last();
    assert forall|i: int| 0 <= i < rest.len() implies overwritten_by(#[trigger] rest[i].0, frames.last().0) by {
        assert(rest[i] == frames[i]);
    }
    lemma_dragged_then(root, rest, frames.last().0);
    lemma_drag_goes_back_in_one_step(h, root, frames);
}

/// Renames of one group write over each other, so a drag of renames
/// meets [`lemma_drag_in_the_scene_goes_back`].
pub proof fn lemma_renames_overwrite(first: SetName, last: SetName)
    requires
        first.id == last.id,
    ensures
        overwritten_by(TreeChange::Name(first), TreeChange::Name(last)),
{
    assert forall|root: GroupView| #[trigger] applied(applied(root, TreeChange::Name(first)), TreeChange::Name(last))
        == applied(root, TreeChange::Name(last)) by {
        crate::scene::change::lemma_rename_twice(root, first.id, first.after@, last.after@);
    }
}

} // verus!