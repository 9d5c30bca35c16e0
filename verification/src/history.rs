//! The stack of steps the DM can take back and write again, and the words
//! a step says on the history list.
//!
//! A change under the DM's hand, such as a drag, comes in through
//! [`History::hold`] once a frame. The history drops the one it held and
//! keeps the new one, so a drag of a hundred frames is one step. The tool
//! calls [`History::settle`] when the drag ends. A change that is over in
//! one frame goes through [`History::run`].
//!
//! The stack keeps the steps and says which one to write or take back; the
//! program writes it into the scene.

use vstd::prelude::*;

use crate::catalog::{
    history_deed_add_map, history_deed_another_group, history_deed_draw, history_deed_erase,
    history_deed_group, history_deed_move_in_list, history_deed_new_group, history_deed_order,
    history_deed_ungroup, history_ago_day, history_ago_days_text, history_ago_earlier, history_ago_hours_text,
    history_ago_minutes_text, history_ago_now, history_lists_many_text, history_lists_one,
    history_maps_many_text, history_maps_one, history_screens_both, history_screens_dm,
    history_screens_none, history_screens_tv,
};
use crate::language::{Language, line_at};
use crate::scene::model::Shown;
use crate::text::{args_view, decimal, decimal_string, fill, filled};

verus! {

/// What one step says on the history list.
///
/// A change fills the first three. The history fills `ago`, because a
/// change does not know what the time is.
#[derive(Debug, Clone, PartialEq, Eq, Default)]
pub struct Note {
    /// What the DM did, such as `Move` or `New group`.
    pub what: String,
    /// The file or the group it happened to.
    pub subject: String,
    /// The numbers the change wrote, such as the two spots of a move.
    pub detail: String,
    /// How long ago the DM made it, such as `4 min ago`.
    pub ago: String,
}

impl Note {
    /// A note with no time on it yet.
    pub fn new(what: &str, subject: String, detail: String) -> (r: Note)
        ensures
            r.what@ == what@,
            r.subject == subject,
            r.detail == detail,
            r.ago@ == Seq::<char>::empty(),
    {
        Note { what: what.to_owned(), subject, detail, ago: String::new() }
    }
}

/// What a change to the shape of the tree did.
///
/// A step keeps the deed and not the word for it: the word comes from the
/// language the DM reads, and the history file holds the same value
/// whichever language wrote it.
#[derive(Debug, Clone, Copy, PartialEq, Eq, Structural)]
pub enum Deed {
    /// A map joined the scene.
    AddMap,
    /// A group joined the tree.
    NewGroup,
    /// A group went, and what it held stayed.
    Ungroup,
    /// A node took another place in the list.
    MoveInList,
    /// A map went into another group, from its panel.
    AnotherGroup,
    /// A selection became a group.
    Group,
    /// A node moved up or down the stack.
    Order,
    /// The DM drew something.
    Draw,
    /// The eraser took a bite out of what the DM drew.
    Erase,
}

/// The word the history list gives a deed.
pub open spec fn deed_word(deed: Deed) -> Seq<char> {
    match deed {
        Deed::AddMap => "Add map"@,
        Deed::NewGroup => "New group"@,
        Deed::Ungroup => "Ungroup"@,
        Deed::MoveInList => "Move in list"@,
        Deed::AnotherGroup => "Into a group"@,
        Deed::Group => "Group"@,
        Deed::Order => "Order"@,
        Deed::Draw => "Draw"@,
        Deed::Erase => "Erase"@,
    }
}

/// The place of the line that names a deed in the catalog.
pub open spec fn deed_place(deed: Deed) -> int {
    match deed {
        Deed::AddMap => 24,
        Deed::NewGroup => 25,
        Deed::Ungroup => 26,
        Deed::MoveInList => 27,
        Deed::AnotherGroup => 28,
        Deed::Group => 29,
        Deed::Order => 30,
        Deed::Draw => 31,
        Deed::Erase => 32,
    }
}

impl Deed {
    /// What the history list calls this deed.
    pub fn word(self) -> (r: &'static str)
        ensures
            r@ == deed_word(self),
    {
        match self {
            Deed::AddMap => history_deed_add_map(),
            Deed::NewGroup => history_deed_new_group(),
            Deed::Ungroup => history_deed_ungroup(),
            Deed::MoveInList => history_deed_move_in_list(),
            Deed::AnotherGroup => history_deed_another_group(),
            Deed::Group => history_deed_group(),
            Deed::Order => history_deed_order(),
            Deed::Draw => history_deed_draw(),
            Deed::Erase => history_deed_erase(),
        }
    }

    /// What the history list calls this deed, in the language the DM picked.
    pub fn word_in(self, language: Option<&Language>) -> (r: &'static str)
        requires
            language matches Some(l) ==> l.whole(),
        ensures
            r@ == line_at(match language { Some(l) => Some(*l), None => None }, deed_place(self)),
    {
        match self {
            Deed::AddMap => crate::catalog::history_deed_add_map_in(language),
            Deed::NewGroup => crate::catalog::history_deed_new_group_in(language),
            Deed::Ungroup => crate::catalog::history_deed_ungroup_in(language),
            Deed::MoveInList => crate::catalog::history_deed_move_in_list_in(language),
            Deed::AnotherGroup => crate::catalog::history_deed_another_group_in(language),
            Deed::Group => crate::catalog::history_deed_group_in(language),
            Deed::Order => crate::catalog::history_deed_order_in(language),
            Deed::Draw => crate::catalog::history_deed_draw_in(language),
            Deed::Erase => crate::catalog::history_deed_erase_in(language),
        }
    }
}

/// How many changes the stack keeps once a step settles.
pub const STEPS: usize = 100;

/// One step: the change the DM made, and when they made it.
#[derive(Debug)]
pub struct Step<C> {
    /// What the step writes and takes back.
    pub change: C,
    /// The seconds since the epoch. A file from an older version of the
    /// program carries none, and the step reads as `earlier`.
    pub at: u64,
}

/// The stack as a mathematical value.
pub struct HistoryView<C> {
    /// What the DM did, oldest first.
    pub done: Seq<Step<C>>,
    /// What the DM took back, the last one last.
    pub undone: Seq<Step<C>>,
    /// The change under the DM's hand, which is not a step yet.
    pub open: Option<Step<C>>,
    /// Whether the stack changed since the last write of its file.
    pub unwritten: bool,
}

/// The changes the DM made, and the ones they took back.
#[derive(Debug)]
pub struct History<C> {
    done: Vec<Step<C>>,
    undone: Vec<Step<C>>,
    open: Option<Step<C>>,
    unwritten: bool,
}

impl<C> View for History<C> {
    type V = HistoryView<C>;

    closed spec fn view(&self) -> HistoryView<C> {
        HistoryView { done: self.done@, undone: self.undone@, open: self.open, unwritten: self.unwritten }
    }
}

/// Every step in the order the history list reads them: what the DM did,
/// oldest first, then what they took back, the one taken back first last.
pub open spec fn listed<C>(h: HistoryView<C>) -> Seq<Step<C>> {
    h.done + h.undone.reverse()
}

/// The stack once the change under the DM's hand became a step.
///
/// The oldest step falls off the bottom when the stack grows past
/// [`STEPS`].
pub open spec fn settled<C>(h: HistoryView<C>) -> HistoryView<C> {
    match h.open {
        None => h,
        Some(step) => {
            let grown = h.done.push(step);
            HistoryView {
                done: if grown.len() > STEPS { grown.drop_first() } else { grown },
                undone: h.undone,
                open: None,
                unwritten: true,
            }
        },
    }
}

/// The stack once it took a change the DM is still making.
pub open spec fn holding_change<C>(h: HistoryView<C>, change: C, at: u64) -> HistoryView<C> {
    HistoryView { done: h.done, undone: Seq::empty(), open: Some(Step { change, at }), unwritten: true }
}

/// The stack once it took a change that is over in one frame.
pub open spec fn ran<C>(h: HistoryView<C>, change: C, at: u64) -> HistoryView<C> {
    settled(holding_change(settled(h), change, at))
}

/// Where a walk over the stack stepped.
#[derive(Debug, Clone, Copy, PartialEq, Eq, Structural)]
pub enum Walk {
    /// It took the last step back; the program reverts it.
    Undid,
    /// It wrote the last step taken back again; the program applies it.
    Redid,
    /// The stack stands where the walk wants it.
    Stayed,
}

impl<C> History<C> {
    /// An empty stack.
    pub fn new() -> (r: History<C>)
        ensures
            r@.done == Seq::<Step<C>>::empty(),
            r@.undone == Seq::<Step<C>>::empty(),
            r@.open is None,
            !r@.unwritten,
    {
        History { done: Vec::new(), undone: Vec::new(), open: None, unwritten: false }
    }

    /// Takes a change that the DM is still making.
    ///
    /// The history drops the change it held and keeps this one, so a drag
    /// is one step. A new change drops what the DM took back.
    pub fn hold(&mut self, change: C, at: u64)
        ensures
            final(self)@ == holding_change(old(self)@, change, at),
    {
        self.undone.clear();
        self.open = Some(Step { change, at });
        self.unwritten = true;
    }

    /// Closes the change [`History::hold`] took, once the drag ends.
    pub fn settle(&mut self)
        ensures
            final(self)@ == settled(old(self)@),
    {
        let step = match self.open.take() {
            Some(step) => step,
            None => {
                return;
            },
        };
        self.done.push(step);
        if self.done.len() > STEPS {
            self.done.remove(0);
            proof {
                assert(self.done@ =~= settled(old(self)@).done);
            }
        }
        self.unwritten = true;
    }

    /// Takes a change that is over in one frame.
    ///
    /// A change the DM still had under their hand becomes a step of its
    /// own first, so a press of a button never swallows the drag before it.
    pub fn run(&mut self, change: C, at: u64)
        ensures
            final(self)@ == ran(old(self)@, change, at),
    {
        self.settle();
        self.hold(change, at);
        self.settle();
    }

    /// Keeps a change that is in the scene already, as one step.
    pub fn kept(&mut self, change: C, at: u64)
        ensures
            final(self)@ == ran(old(self)@, change, at),
    {
        self.settle();
        self.undone.clear();
        self.open = Some(Step { change, at });
        self.unwritten = true;
        self.settle();
    }

    /// Whether a change is under the DM's hand.
    pub fn holding(&self) -> (r: bool)
        ensures
            r == self@.open is Some,
    {
        self.open.is_some()
    }

    /// Takes the last step back. Returns `true` when there was one; the
    /// program then reverts [`History::last_taken_back`].
    pub fn undo(&mut self) -> (r: bool)
        ensures
            r == (old(self)@.done.len() > 0),
            r ==> final(self)@ == (HistoryView {
                done: old(self)@.done.drop_last(),
                undone: old(self)@.undone.push(old(self)@.done.last()),
                open: old(self)@.open,
                unwritten: true,
            }),
            !r ==> final(self)@ == old(self)@,
    {
        match self.done.pop() {
            Some(step) => {
                self.undone.push(step);
                self.unwritten = true;
                true
            },
            None => false,
        }
    }

    /// Writes the last step the DM took back again. Returns `true` when
    /// there was one; the program then applies [`History::last_written`].
    pub fn redo(&mut self) -> (r: bool)
        ensures
            r == (old(self)@.undone.len() > 0),
            r ==> final(self)@ == (HistoryView {
                done: old(self)@.done.push(old(self)@.undone.last()),
                undone: old(self)@.undone.drop_last(),
                open: old(self)@.open,
                unwritten: true,
            }),
            !r ==> final(self)@ == old(self)@,
    {
        match self.undone.pop() {
            Some(step) => {
                self.done.push(step);
                self.unwritten = true;
                true
            },
            None => false,
        }
    }

    /// The change the last undo took back.
    pub fn last_taken_back(&self) -> (r: Option<&C>)
        ensures
            r matches Some(c) ==> self@.undone.len() > 0 && *c == self@.undone.last().change,
            r is None ==> self@.undone.len() == 0,
    {
        if self.undone.len() == 0 {
            None
        } else {
            Some(&self.undone[self.undone.len() - 1].change)
        }
    }

    /// The change the last redo wrote, which is the last step written.
    pub fn last_written(&self) -> (r: Option<&C>)
        ensures
            r matches Some(c) ==> self@.done.len() > 0 && *c == self@.done.last().change,
            r is None ==> self@.done.len() == 0,
    {
        if self.done.len() == 0 {
            None
        } else {
            Some(&self.done[self.done.len() - 1].change)
        }
    }

    /// How many steps stand written. The rest the DM took back.
    pub fn place(&self) -> (r: usize)
        ensures
            r == self@.done.len(),
    {
        self.done.len()
    }

    /// How many steps the history list reads, stopped at `usize::MAX`.
    pub fn len(&self) -> (r: usize)
        ensures
            r == if listed(self@).len() <= usize::MAX { listed(self@).len() } else { usize::MAX as nat },
    {
        proof {
            assert(listed(self@).len() == self@.done.len() + self@.undone.len());
        }
        self.done.len().saturating_add(self.undone.len())
    }

    /// The step at place `i` of the history list.
    pub fn step(&self, i: usize) -> (r: &Step<C>)
        requires
            i < listed(self@).len(),
        ensures
            *r == listed(self@)[i as int],
    {
        if i < self.done.len() {
            &self.done[i]
        } else {
            let back = i - self.done.len();
            let last = self.undone.len() - 1 - back;
            proof {
                assert(listed(self@)[i as int] == self@.undone.reverse()[back as int]);
            }
            &self.undone[last]
        }
    }

    /// One step toward `place` steps written: an undo when more stand
    /// written, a redo when fewer do and one was taken back.
    pub fn toward(&mut self, place: usize) -> (r: Walk)
        ensures
            old(self)@.done.len() > place ==> r == Walk::Undid,
            old(self)@.done.len() < place && old(self)@.undone.len() > 0 ==> r == Walk::Redid,
            r == Walk::Undid ==> old(self)@.done.len() > place,
            r == Walk::Redid ==> old(self)@.done.len() < place && old(self)@.undone.len() > 0,
            r == Walk::Undid ==> final(self)@ == (HistoryView {
                done: old(self)@.done.drop_last(),
                undone: old(self)@.undone.push(old(self)@.done.last()),
                open: old(self)@.open,
                unwritten: true,
            }),
            r == Walk::Redid ==> final(self)@ == (HistoryView {
                done: old(self)@.done.push(old(self)@.undone.last()),
                undone: old(self)@.undone.drop_last(),
                open: old(self)@.open,
                unwritten: true,
            }),
            r == Walk::Stayed ==> final(self)@ == old(self)@,
            r == Walk::Stayed ==> (old(self)@.done.len() == place || (old(self)@.done.len() < place
                && old(self)@.undone.len() == 0)),
    {
        if self.done.len() > place && self.undo() {
            return Walk::Undid;
        }
        if self.done.len() < place && self.redo() {
            return Walk::Redid;
        }
        Walk::Stayed
    }

    /// Whether the stack has something the file beside the scene lacks.
    pub fn unwritten(&self) -> (r: bool)
        ensures
            r == self@.unwritten,
    {
        self.unwritten
    }

    /// Marks the stack as written, once the file holds it.
    pub fn wrote(&mut self)
        ensures
            final(self)@ == (HistoryView { unwritten: false, ..old(self)@ }),
    {
        self.unwritten = false;
    }

    /// A stack that a file gave back: every step in the order the list
    /// reads them, and how many of them stand written. A place past the
    /// end stops at the end.
    pub fn from_steps(steps: Vec<Step<C>>, place: usize) -> (r: History<C>)
        ensures
            r@.done == steps@.subrange(0, if place < steps@.len() { place as int } else { steps@.len() as int }),
            listed(r@) == steps@,
            r@.open is None,
            !r@.unwritten,
    {
        let mut steps = steps;
        let ghost all = steps@;
        let place = if place < steps.len() { place } else { steps.len() };
        let mut undone: Vec<Step<C>> = Vec::new();
        while steps.len() > place
            invariant
                place <= steps@.len() <= all.len(),
                place <= all.len(),
                steps@ == all.subrange(0, steps@.len() as int),
                undone@ == all.subrange(steps@.len() as int, all.len() as int).reverse(),
            decreases steps.len(),
        {
            let step = steps.pop().unwrap();
            undone.push(step);
            proof {
                assert(all.subrange(steps@.len() as int, all.len() as int).reverse()
                    =~= all.subrange(steps@.len() as int + 1, all.len() as int).reverse().push(step));
                assert(steps@ =~= all.subrange(0, steps@.len() as int));
            }
        }
        let r = History { done: steps, undone, open: None, unwritten: false };
        proof {
            assert(undone@.reverse() =~= all.subrange(place as int, all.len() as int));
            assert(listed(r@) =~= all);
        }
        r
    }
}

/// The stack once its last written step was taken back.
pub open spec fn took_back<C>(h: HistoryView<C>) -> HistoryView<C> {
    HistoryView { done: h.done.drop_last(), undone: h.undone.push(h.done.last()), open: h.open, unwritten: true }
}

/// The stack once its last step taken back was written again.
pub open spec fn wrote_again<C>(h: HistoryView<C>) -> HistoryView<C> {
    HistoryView { done: h.done.push(h.undone.last()), undone: h.undone.drop_last(), open: h.open, unwritten: true }
}

/// An undo and then a redo leave the stack as it stood, but for the mark
/// that the file lacks it.
pub proof fn lemma_undo_then_redo<C>(h: HistoryView<C>)
    requires
        h.done.len() > 0,
    ensures
        wrote_again(took_back(h)) == (HistoryView { unwritten: true, ..h }),
{
    assert(wrote_again(took_back(h)).done =~= h.done);
    assert(wrote_again(took_back(h)).undone =~= h.undone);
}

/// A redo and then an undo leave the stack as it stood, but for the mark
/// that the file lacks it.
pub proof fn lemma_redo_then_undo<C>(h: HistoryView<C>)
    requires
        h.undone.len() > 0,
    ensures
        took_back(wrote_again(h)) == (HistoryView { unwritten: true, ..h }),
{
    assert(took_back(wrote_again(h)).done =~= h.done);
    assert(took_back(wrote_again(h)).undone =~= h.undone);
}

/// A new change drops every step the DM took back, so a redo after it has
/// nothing to write.
pub proof fn lemma_new_change_drops_taken_back<C>(h: HistoryView<C>, change: C, at: u64)
    ensures
        ran(h, change, at).undone.len() == 0,
        ran(h, change, at).open is None,
{
}

/// A change run and then taken back: the undo hands back that change, and
/// a stack with room for it stands as it did before the change.
pub proof fn lemma_run_then_undo<C>(h: HistoryView<C>, change: C, at: u64)
    requires
        h.open is None,
        h.done.len() < STEPS,
    ensures
        ran(h, change, at).done.len() > 0,
        took_back(ran(h, change, at)).undone.last() == (Step { change, at }),
        took_back(ran(h, change, at)).done == h.done,
{
    assert(ran(h, change, at).done =~= h.done.push(Step { change, at }));
    assert(took_back(ran(h, change, at)).done =~= h.done);
}

/// Every frame of a drag replaces the one before it, so a drag of many
/// frames settles as one step: the last.
pub proof fn lemma_drag_is_one_step<C>(h: HistoryView<C>, first: C, t1: u64, last: C, t2: u64)
    ensures
        settled(holding_change(holding_change(h, first, t1), last, t2)) == settled(holding_change(h, last, t2)),
{
}

/// A step that settles never grows the stack past [`STEPS`], or past what
/// it held before when a file gave it more.
pub proof fn lemma_stack_holds_its_limit<C>(h: HistoryView<C>)
    ensures
        settled(h).done.len() <= if h.done.len() > STEPS { h.done.len() } else { STEPS as nat },
{
}

/// How long ago a step was made, in words.
///
/// A step with no time reads as `earlier`. Under three quarters of a
/// minute reads as no time at all; then minutes, rounded; then hours,
/// rounded; a day and a half still reads as a day; then whole days. A
/// step in the future, from a clock that went back, reads as just now.
pub open spec fn ago_words(at: u64, now: u64) -> Seq<char> {
    if at == 0 {
        "earlier"@
    } else {
        let gap: int = if now >= at { now - at } else { 0 };
        let minutes = (gap + 30) / 60;
        let hours = (gap + 1800) / 3600;
        if gap < 45 {
            "just now"@
        } else if minutes < 90 {
            filled("{count} min ago"@, seq![("count"@, decimal(if minutes < 1 { 1 } else { minutes as nat }))])
        } else if hours < 24 {
            filled("{count} h ago"@, seq![("count"@, decimal(hours as nat))])
        } else if gap < 2 * 86400 {
            "a day ago"@
        } else {
            filled("{count} days ago"@, seq![("count"@, decimal((gap / 86400) as nat))])
        }
    }
}

fn count_line(template: &str, count: u64) -> (r: String)
    ensures
        r@ == filled(template@, seq![("count"@, decimal(count as nat))]),
{
    let number = decimal_string(count);
    let args = [("count", number.as_str())];
    proof {
        assert(args_view(args@) =~= seq![("count"@, decimal(count as nat))]);
    }
    fill(template, &args)
}

/// How long ago a step was made, in words.
pub fn ago(at: u64, now: u64) -> (r: String)
    ensures
        r@ == ago_words(at, now),
{
    if at == 0 {
        return history_ago_earlier().to_owned();
    }
    let gap = now.saturating_sub(at);
    if gap < 45 {
        return history_ago_now().to_owned();
    }
    let minutes = gap / 60 + if gap % 60 >= 30 { 1 } else { 0 };
    assert(minutes == (gap + 30) / 60);
    if minutes < 90 {
        let shown = if minutes < 1 { 1 } else { minutes };
        return count_line(history_ago_minutes_text(), shown);
    }
    let hours = gap / 3600 + if gap % 3600 >= 1800 { 1 } else { 0 };
    assert(hours == (gap + 1800) / 3600);
    if hours < 24 {
        return count_line(history_ago_hours_text(), hours);
    }
    if gap < 2 * 86400 {
        return history_ago_day().to_owned();
    }
    count_line(history_ago_days_text(), gap / 86400)
}

/// Which screens a pair of switches says yes to, in words.
pub open spec fn screens_words(shown: Shown) -> Seq<char> {
    if shown.dm && shown.tv {
        "DM and TV"@
    } else if shown.dm {
        "DM only"@
    } else if shown.tv {
        "TV only"@
    } else {
        "no screen"@
    }
}

/// Which screens a pair of switches says yes to.
pub fn screens(shown: Shown) -> (r: &'static str)
    ensures
        r@ == screens_words(shown),
{
    match (shown.dm, shown.tv) {
        (true, true) => history_screens_both(),
        (true, false) => history_screens_dm(),
        (false, true) => history_screens_tv(),
        (false, false) => history_screens_none(),
    }
}

/// How a step names the group lists it rewrote, in words.
pub open spec fn lists_words(count: nat) -> Seq<char> {
    if count == 1 {
        "one list"@
    } else {
        filled("{count} lists"@, seq![("count"@, decimal(count))])
    }
}

/// How a step names the group lists it rewrote.
pub fn lists(count: u64) -> (r: String)
    ensures
        r@ == lists_words(count as nat),
{
    if count == 1 {
        history_lists_one().to_owned()
    } else {
        count_line(history_lists_many_text(), count)
    }
}

/// How a step names the maps it touched: the file of the one map, or a
/// count of them.
pub fn maps(names: &Vec<String>) -> (r: String)
    ensures
        names@.len() == 0 ==> r@ == "map"@,
        names@.len() == 1 ==> r@ == names@[0]@,
        names@.len() > 1 ==> r@ == filled("{count} maps"@, seq![("count"@, decimal(names@.len()))]),
{
    if names.len() == 0 {
        history_maps_one().to_owned()
    } else if names.len() == 1 {
        names[0].clone()
    } else {
        count_line(history_maps_many_text(), names.len() as u64)
    }
}

} // verus!
