//! The changes to the tree as one kind of step, and the stack walking back
//! and forth over them in the scene.

use vstd::prelude::*;

use crate::history::{History, HistoryView, Note, ago, holding_change, took_back, wrote_again, ago_words, deed_word, listed, lists_words, ran, screens_words, Walk};
use crate::text::filled;
use crate::scene::change::{SetName, SetShown, renamed, shown_set};
use crate::scene::model::GroupView;
use crate::scene::restructure::{Restructure, lists_view, written};
use crate::scene::Scene;

verus! {

/// One change to the tree, as the history keeps it.
#[derive(Debug)]
pub enum TreeChange {
    /// See [`SetName`].
    Name(SetName),
    /// See [`SetShown`].
    Shown(SetShown),
    /// See [`Restructure`].
    Tree(Restructure),
}

/// The tree once a change is written into it.
pub open spec fn applied(root: GroupView, change: TreeChange) -> GroupView {
    match change {
        TreeChange::Name(c) => renamed(root, c.id, c.after@),
        TreeChange::Shown(c) => shown_set(root, c.id, c.after),
        TreeChange::Tree(c) => written(root, lists_view(c.after@), c.after@.len() as int),
    }
}

/// The tree once a change is taken back out of it.
pub open spec fn reverted(root: GroupView, change: TreeChange) -> GroupView {
    match change {
        TreeChange::Name(c) => renamed(root, c.id, c.before@),
        TreeChange::Shown(c) => shown_set(root, c.id, c.before),
        TreeChange::Tree(c) => written(root, lists_view(c.before@), c.before@.len() as int),
    }
}

impl TreeChange {
    /// Writes the change into the scene.
    pub fn apply(&self, scene: &mut Scene)
        ensures
            final(scene)@ == applied(old(scene)@, *self),
    {
        match self {
            TreeChange::Name(c) => c.apply(scene),
            TreeChange::Shown(c) => c.apply(scene),
            TreeChange::Tree(c) => c.apply(scene),
        }
    }

    /// Puts the scene back the way it stood before [`TreeChange::apply`].
    pub fn revert(&self, scene: &mut Scene)
        ensures
            final(scene)@ == reverted(old(scene)@, *self),
    {
        match self {
            TreeChange::Name(c) => c.revert(scene),
            TreeChange::Shown(c) => c.revert(scene),
            TreeChange::Tree(c) => c.revert(scene),
        }
    }

    /// What this change says on the history list.
    pub fn note(&self) -> (r: Note)
        ensures
            (r.what@, r.subject@, r.detail@) == told(*self),
            r.ago@ == Seq::<char>::empty(),
    {
        match self {
            TreeChange::Name(c) => c.note(),
            TreeChange::Shown(c) => c.note(),
            TreeChange::Tree(c) => c.note(),
        }
    }
}

/// What a change says on the history list: the deed, what it happened
/// to, and the values it wrote.
pub open spec fn told(change: TreeChange) -> (Seq<char>, Seq<char>, Seq<char>) {
    match change {
        TreeChange::Name(c) => ("Rename"@, c.before@, filled("to {name}"@, seq![("name"@, c.after@)])),
        TreeChange::Shown(c) => (
            "Screens"@,
            c.subject@,
            filled("{from} to {to}"@, seq![("from"@, screens_words(c.before)), ("to"@, screens_words(c.after))]),
        ),
        TreeChange::Tree(c) => (
            deed_word(c.what),
            c.subject@,
            filled("{lists}"@, seq![("lists"@, lists_words(c.after@.len() as nat))]),
        ),
    }
}

/// What every step says, in the order the history list reads them, each
/// with how long before `now` the DM made it.
pub fn steps_in(history: &History<TreeChange>, now: u64) -> (r: Vec<Note>)
    ensures
        r@.len() == (if listed(history@).len() <= usize::MAX { listed(history@).len() } else { usize::MAX as nat }),
        forall|i: int| 0 <= i < r@.len() ==> {
            &&& (#[trigger] r@[i]).what@ == told(listed(history@)[i].change).0
            &&& r@[i].subject@ == told(listed(history@)[i].change).1
            &&& r@[i].detail@ == told(listed(history@)[i].change).2
            &&& r@[i].ago@ == ago_words(listed(history@)[i].at, now)
        },
{
    let n = history.len();
    let mut out: Vec<Note> = Vec::new();
    let mut i: usize = 0;
    while i < n
        invariant
            i <= n,
            n == (if listed(history@).len() <= usize::MAX { listed(history@).len() } else { usize::MAX as nat }),
            out@.len() == i,
            forall|j: int| 0 <= j < i ==> {
                &&& (#[trigger] out@[j]).what@ == told(listed(history@)[j].change).0
                &&& out@[j].subject@ == told(listed(history@)[j].change).1
                &&& out@[j].detail@ == told(listed(history@)[j].change).2
                &&& out@[j].ago@ == ago_words(listed(history@)[j].at, now)
            },
        decreases n - i,
    {
        let step = history.step(i);
        let mut note = step.change.note();
        note.ago = ago(step.at, now);
        out.push(note);
        i += 1;
    }
    out
}

/// Writes a change the DM is still making into the scene, and holds it as
/// the change under the DM's hand, in place of the one held before.
///
/// Every frame of a drag comes in here, so a drag is one step once
/// [`History::settle`] closes it.
pub fn hold_in(history: &mut History<TreeChange>, scene: &mut Scene, change: TreeChange, at: u64)
    ensures
        final(history)@ == holding_change(old(history)@, change, at),
        final(scene)@ == applied(old(scene)@, change),
{
    change.apply(scene);
    history.hold(change, at);
}

/// Writes a change that is over in one frame into the scene, and keeps it
/// as a step.
pub fn run_in(history: &mut History<TreeChange>, scene: &mut Scene, change: TreeChange, at: u64)
    ensures
        final(history)@ == ran(old(history)@, change, at),
        final(scene)@ == applied(old(scene)@, change),
{
    change.apply(scene);
    history.run(change, at);
}

/// Takes the last step back, out of the scene too. Returns `true` when
/// there was one.
pub fn undo_in(history: &mut History<TreeChange>, scene: &mut Scene) -> (r: bool)
    ensures
        r == (old(history)@.done.len() > 0),
        r ==> final(history)@ == took_back(old(history)@),
        r ==> final(scene)@ == reverted(old(scene)@, old(history)@.done.last().change),
        !r ==> final(history)@ == old(history)@ && final(scene)@ == old(scene)@,
{
    if !history.undo() {
        return false;
    }
    match history.last_taken_back() {
        Some(change) => change.revert(scene),
        None => {},
    }
    true
}

/// Writes the last step taken back again, into the scene too. Returns
/// `true` when there was one.
pub fn redo_in(history: &mut History<TreeChange>, scene: &mut Scene) -> (r: bool)
    ensures
        r == (old(history)@.undone.len() > 0),
        r ==> final(history)@ == wrote_again(old(history)@),
        r ==> final(scene)@ == applied(old(scene)@, old(history)@.undone.last().change),
        !r ==> final(history)@ == old(history)@ && final(scene)@ == old(scene)@,
{
    if !history.redo() {
        return false;
    }
    match history.last_written() {
        Some(change) => change.apply(scene),
        None => {},
    }
    true
}

/// One step of a walk toward `place` steps written, in the scene too.
pub fn step_toward_in(history: &mut History<TreeChange>, scene: &mut Scene, place: usize) -> (r: Walk)
    ensures
        old(history)@.done.len() > place ==> r == Walk::Undid,
        old(history)@.done.len() < place && old(history)@.undone.len() > 0 ==> r == Walk::Redid,
        r == Walk::Undid ==> old(history)@.done.len() > place,
        r == Walk::Redid ==> old(history)@.done.len() < place && old(history)@.undone.len() > 0,
        r == Walk::Undid ==> final(history)@ == took_back(old(history)@)
            && final(scene)@ == reverted(old(scene)@, old(history)@.done.last().change),
        r == Walk::Redid ==> final(history)@ == wrote_again(old(history)@)
            && final(scene)@ == applied(old(scene)@, old(history)@.undone.last().change),
        r == Walk::Stayed ==> final(history)@ == old(history)@ && final(scene)@ == old(scene)@,
{
    match history.toward(place) {
        Walk::Undid => {
            match history.last_taken_back() {
                Some(change) => change.revert(scene),
                None => {},
            }
            Walk::Undid
        },
        Walk::Redid => {
            match history.last_written() {
                Some(change) => change.apply(scene),
                None => {},
            }
            Walk::Redid
        },
        Walk::Stayed => Walk::Stayed,
    }
}

/// How far a walk toward `place` steps written has still to go.
pub open spec fn walk_left<C>(h: HistoryView<C>, place: nat) -> nat {
    if h.done.len() > place {
        (h.done.len() - place) as nat
    } else if h.done.len() < place {
        h.undone.len()
    } else {
        0
    }
}

/// The scene and the stack once a walk went toward `place` steps written:
/// each step past it taken back out of the scene, newest first, or each
/// step taken back written again, until the stack stands at `place` or
/// has nothing left to write.
pub open spec fn walked(root: GroupView, h: HistoryView<TreeChange>, place: nat) -> (GroupView, HistoryView<TreeChange>)
    decreases walk_left(h, place),
{
    if h.done.len() > place {
        walked(reverted(root, h.done.last().change), took_back(h), place)
    } else if h.done.len() < place && h.undone.len() > 0 {
        walked(applied(root, h.undone.last().change), wrote_again(h), place)
    } else {
        (root, h)
    }
}

/// Walks the scene to the state after `place` steps. Returns `true` when
/// the scene moved. A place past the end of the stack walks as far as the
/// stack goes.
pub fn walk_to(history: &mut History<TreeChange>, scene: &mut Scene, place: usize) -> (r: bool)
    ensures
        (final(scene)@, final(history)@) == walked(old(scene)@, old(history)@, place as nat),
        final(history)@.done.len() == place
            || (final(history)@.done.len() < place && final(history)@.undone.len() == 0),
        listed(final(history)@) == listed(old(history)@),
        r == (final(history)@.done.len() != old(history)@.done.len()),
{
    let ghost start = history@;
    let ghost goal = walked(old(scene)@, old(history)@, place as nat);
    let mut moved = false;
    loop
        invariant
            start == old(history)@,
            goal == walked(old(scene)@, old(history)@, place as nat),
            listed(history@) == listed(start),
            walked(scene@, history@, place as nat) == goal,
            start.done.len() > place ==> place <= history@.done.len() <= start.done.len(),
            start.done.len() <= place ==> start.done.len() <= history@.done.len() <= place,
            moved == (history@.done.len() != start.done.len()),
        decreases walk_left(history@, place as nat),
    {
        let ghost before = history@;
        let ghost scene_before = scene@;
        match step_toward_in(history, scene, place) {
            Walk::Stayed => {
                proof {
                    assert(walked(scene@, history@, place as nat) == (scene@, history@));
                }
                return moved;
            },
            _ => {
                proof {
                    assert(listed(history@) =~= listed(before));
                    assert(walked(scene@, history@, place as nat) == walked(scene_before, before, place as nat));
                }
                moved = true;
            },
        }
    }
}

} // verus!
