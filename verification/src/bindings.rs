//! The keys that start the controls: the defaults, the ones the DM put in
//! their place, and which control a press means.
//!
//! A screen asks this module whether a press means a control, and never
//! names a key itself, so a key the DM changes changes everywhere at once.

use vstd::prelude::*;

use crate::catalog;
use crate::keys::{Action, Taken, actions, every_action, repeating};

verus! {

/// A key of the keyboard, as the controls read it: each key a default or a
/// rule of this module names, and any other by a number of its own.
#[derive(Debug, Clone, Copy, PartialEq, Eq, Structural)]
pub enum Key {
    Z,
    Y,
    T,
    P,
    R,
    F,
    Plus,
    Minus,
    Equals,
    Num0,
    Questionmark,
    Colon,
    Pipe,
    Exclamationmark,
    OpenCurlyBracket,
    CloseCurlyBracket,
    PageUp,
    PageDown,
    Delete,
    Backspace,
    ArrowLeft,
    ArrowRight,
    ArrowUp,
    ArrowDown,
    Escape,
    Space,
    Enter,
    Tab,
    /// Any other key.
    Other(u32),
}

/// The modifiers held with a key: `Ctrl` (or `Cmd` on a Mac), `Shift`
/// and `Alt`.
#[derive(Debug, Clone, Copy, PartialEq, Eq, Structural)]
pub struct Modifiers {
    pub command: bool,
    pub shift: bool,
    pub alt: bool,
}

/// A key with the modifiers held with it.
#[derive(Debug, Clone, Copy, PartialEq, Eq, Structural)]
pub struct Chord {
    /// The key itself.
    pub key: Key,
    /// `Ctrl`, or `Cmd` on a Mac.
    pub ctrl: bool,
    /// `Shift`.
    pub shift: bool,
    /// `Alt`.
    pub alt: bool,
}

/// Whether a key names a symbol that takes `Shift` to type.
pub open spec fn shifted(key: Key) -> bool {
    key is Plus || key is Questionmark || key is Colon || key is Pipe || key is Exclamationmark
        || key is OpenCurlyBracket || key is CloseCurlyBracket
}

/// The chord a press of `key` with `held` makes: `=` counts as `+`, and a
/// symbol that takes `Shift` to type answers with or without it.
pub open spec fn chord_of(key: Key, held: Modifiers) -> Chord {
    let key = if key is Equals { Key::Plus } else { key };
    Chord { key, ctrl: held.command, shift: held.shift && !shifted(key), alt: held.alt }
}

/// Whether the key names a symbol that takes `Shift` to type.
pub fn shifted_symbol(key: Key) -> (r: bool)
    ensures
        r == shifted(key),
{
    matches!(
        key,
        Key::Plus | Key::Questionmark | Key::Colon | Key::Pipe | Key::Exclamationmark | Key::OpenCurlyBracket
            | Key::CloseCurlyBracket
    )
}

impl Chord {
    /// The key alone.
    pub fn plain(key: Key) -> (r: Chord)
        ensures
            r == (Chord { key, ctrl: false, shift: false, alt: false }),
    {
        Chord { key, ctrl: false, shift: false, alt: false }
    }

    /// The key with `Ctrl`.
    pub fn ctrl(key: Key) -> (r: Chord)
        ensures
            r == (Chord { key, ctrl: true, shift: false, alt: false }),
    {
        Chord { key, ctrl: true, shift: false, alt: false }
    }

    /// The chord a press of `key` with `held` makes.
    ///
    /// `+` sits on the numpad and on the `=` key of the main row, and both
    /// keep the job of `+`. A symbol that takes `Shift` to type, such as
    /// `?`, answers with `Shift` or without it, because the DM thinks of
    /// the symbol and not of the hand that makes it.
    pub fn of(key: Key, held: Modifiers) -> (r: Chord)
        ensures
            r == chord_of(key, held),
    {
        let key = if matches!(key, Key::Equals) { Key::Plus } else { key };
        Chord { key, ctrl: held.command, shift: held.shift && !shifted_symbol(key), alt: held.alt }
    }

    /// Whether a press of `key` with `held` makes this chord.
    pub fn made_by(self, key: Key, held: Modifiers) -> (r: bool)
        ensures
            r == (chord_of(key, held) == self),
    {
        Chord::of(key, held) == self
    }
}

/// The keys a first run gives a control. Redo and Delete answer to two
/// keys each, for a DM who learned them in another program.
pub open spec fn default_chords(action: Action) -> Seq<Chord> {
    let plain = |key: Key| Chord { key, ctrl: false, shift: false, alt: false };
    let ctrl = |key: Key| Chord { key, ctrl: true, shift: false, alt: false };
    match action {
        Action::Undo => seq![ctrl(Key::Z)],
        Action::Redo => seq![Chord { key: Key::Z, ctrl: true, shift: true, alt: false }, ctrl(Key::Y)],
        Action::ZoomIn => seq![ctrl(Key::Plus)],
        Action::ZoomOut => seq![ctrl(Key::Minus)],
        Action::ZoomReset => seq![ctrl(Key::Num0)],
        Action::FrameBox => seq![plain(Key::T)],
        Action::Freeze => seq![plain(Key::P)],
        Action::Shortcuts => seq![plain(Key::Questionmark)],
        Action::Turn => seq![plain(Key::R)],
        Action::FlipAcross => seq![plain(Key::F)],
        Action::FlipDown => seq![Chord { key: Key::F, ctrl: false, shift: true, alt: false }],
        Action::Grow => seq![plain(Key::Plus)],
        Action::Shrink => seq![plain(Key::Minus)],
        Action::Raise => seq![plain(Key::PageUp)],
        Action::Lower => seq![plain(Key::PageDown)],
        Action::Delete => seq![plain(Key::Delete), plain(Key::Backspace)],
        Action::BoxLeft => seq![plain(Key::ArrowLeft)],
        Action::BoxRight => seq![plain(Key::ArrowRight)],
        Action::BoxUp => seq![plain(Key::ArrowUp)],
        Action::BoxDown => seq![plain(Key::ArrowDown)],
    }
}

fn one(chord: Chord) -> (r: Vec<Chord>)
    ensures
        r@ == seq![chord],
{
    let mut out = Vec::new();
    out.push(chord);
    proof {
        assert(out@ =~= seq![chord]);
    }
    out
}

fn two(first: Chord, second: Chord) -> (r: Vec<Chord>)
    ensures
        r@ == seq![first, second],
{
    let mut out = Vec::new();
    out.push(first);
    out.push(second);
    proof {
        assert(out@ =~= seq![first, second]);
    }
    out
}

/// The keys a first run gives the control.
pub fn defaults(action: Action) -> (r: Vec<Chord>)
    ensures
        r@ == default_chords(action),
{
    match action {
        Action::Undo => one(Chord::ctrl(Key::Z)),
        Action::Redo => two(Chord { key: Key::Z, ctrl: true, shift: true, alt: false }, Chord::ctrl(Key::Y)),
        Action::ZoomIn => one(Chord::ctrl(Key::Plus)),
        Action::ZoomOut => one(Chord::ctrl(Key::Minus)),
        Action::ZoomReset => one(Chord::ctrl(Key::Num0)),
        Action::FrameBox => one(Chord::plain(Key::T)),
        // `P` stands for the `pause` glyph of the toolbar entry. `F` would
        // stand for freeze, and a flip holds that key already.
        Action::Freeze => one(Chord::plain(Key::P)),
        Action::Shortcuts => one(Chord::plain(Key::Questionmark)),
        Action::Turn => one(Chord::plain(Key::R)),
        Action::FlipAcross => one(Chord::plain(Key::F)),
        Action::FlipDown => one(Chord { key: Key::F, ctrl: false, shift: true, alt: false }),
        Action::Grow => one(Chord::plain(Key::Plus)),
        Action::Shrink => one(Chord::plain(Key::Minus)),
        Action::Raise => one(Chord::plain(Key::PageUp)),
        Action::Lower => one(Chord::plain(Key::PageDown)),
        Action::Delete => two(Chord::plain(Key::Delete), Chord::plain(Key::Backspace)),
        Action::BoxLeft => one(Chord::plain(Key::ArrowLeft)),
        Action::BoxRight => one(Chord::plain(Key::ArrowRight)),
        Action::BoxUp => one(Chord::plain(Key::ArrowUp)),
        Action::BoxDown => one(Chord::plain(Key::ArrowDown)),
    }
}

/// The name of the fixed control that holds a chord, if one does.
pub open spec fn fixed_holder(chord: Chord) -> Option<Seq<char>> {
    match chord.key {
        Key::Escape => Some("Give up a measure or a dialog"@),
        Key::Space => Some("Pan the canvas"@),
        Key::Enter | Key::Tab => Some("Text fields"@),
        _ => None,
    }
}

/// The name of the fixed control that holds `chord`, if one does.
///
/// `Escape` gives up a measure and closes a dialog, and `Space` with a
/// drag pans the canvas. `Enter` and `Tab` belong to the text fields. A
/// control on any of them would fight what the key does already.
pub fn fixed(chord: Chord) -> (r: Option<&'static str>)
    ensures
        match fixed_holder(chord) {
            Some(name) => r matches Some(s) && s@ == name,
            None => r is None,
        },
{
    match chord.key {
        Key::Escape => Some(catalog::keys_fixed_escape()),
        Key::Space => Some(catalog::keys_fixed_pan()),
        Key::Enter | Key::Tab => Some(catalog::keys_fixed_field()),
        _ => None,
    }
}

/// The keys of every control: the defaults, and the ones the DM chose.
///
/// Only the controls the DM changed hold keys of their own, so a new
/// control a later version brings arrives with its default key.
#[derive(Debug)]
pub struct Keys {
    chosen: Vec<(Action, Vec<Chord>)>,
}

/// The keys the DM chose for a control, in a list of choices.
pub open spec fn chosen_in(s: Seq<(Action, Vec<Chord>)>, action: Action) -> Option<Seq<Chord>>
    decreases s.len(),
{
    if s.len() == 0 {
        None
    } else if s.last().0 == action {
        Some(s.last().1@)
    } else {
        chosen_in(s.drop_last(), action)
    }
}

/// The choices the DM made, in the order of `all`: each control of `all`
/// the DM chose keys for, with those keys.
pub open spec fn entries_in(chosen: spec_fn(Action) -> Option<Seq<Chord>>, all: Seq<Action>) -> Seq<(Action, Seq<Chord>)>
    decreases all.len(),
{
    if all.len() == 0 {
        Seq::empty()
    } else {
        let before = entries_in(chosen, all.drop_last());
        match chosen(all.last()) {
            Some(chords) => before.push((all.last(), chords)),
            None => before,
        }
    }
}

/// Every control stands in the list of controls.
proof fn lemma_every_action_holds(a: Action)
    ensures
        every_action().contains(a),
{
    let all = every_action();
    let k: int = match a {
        Action::Undo => 0,
        Action::Redo => 1,
        Action::ZoomIn => 2,
        Action::ZoomOut => 3,
        Action::ZoomReset => 4,
        Action::FrameBox => 5,
        Action::Freeze => 6,
        Action::Shortcuts => 7,
        Action::Turn => 8,
        Action::FlipAcross => 9,
        Action::FlipDown => 10,
        Action::Grow => 11,
        Action::Shrink => 12,
        Action::Raise => 13,
        Action::Lower => 14,
        Action::Delete => 15,
        Action::BoxLeft => 16,
        Action::BoxRight => 17,
        Action::BoxUp => 18,
        Action::BoxDown => 19,
    };
    assert(all[k] == a);
}

/// The keys that start a control, given the keys the DM chose.
pub open spec fn chords_now(chosen: spec_fn(Action) -> Option<Seq<Chord>>, action: Action) -> Seq<Chord> {
    match chosen(action) {
        Some(chords) => chords,
        None => default_chords(action),
    }
}

/// The first control of `all` from place `k` on, other than `action`,
/// whose keys hold `chord`.
pub open spec fn holder_from(chosen: spec_fn(Action) -> Option<Seq<Chord>>, all: Seq<Action>, action: Action, chord: Chord, k: int) -> Option<Action>
    decreases all.len() - k,
{
    if k < 0 || k >= all.len() {
        None
    } else if all[k] != action && chords_now(chosen, all[k]).contains(chord) {
        Some(all[k])
    } else {
        holder_from(chosen, all, action, chord, k + 1)
    }
}

/// The first control of `among` from place `k` on that a press starts.
pub open spec fn started_from(
    chosen: spec_fn(Action) -> Option<Seq<Chord>>,
    among: Seq<Action>,
    key: Key,
    held: Modifiers,
    repeat: bool,
    k: int,
) -> Option<Action>
    decreases among.len() - k,
{
    if k < 0 || k >= among.len() {
        None
    } else if (!repeat || repeating(among[k])) && chords_now(chosen, among[k]).contains(chord_of(key, held)) {
        Some(among[k])
    } else {
        started_from(chosen, among, key, held, repeat, k + 1)
    }
}

fn copy_chords(v: &Vec<Chord>) -> (r: Vec<Chord>)
    ensures
        r@ == v@,
{
    let mut out = Vec::new();
    let mut i: usize = 0;
    while i < v.len()
        invariant
            i <= v@.len(),
            out@ == v@.subrange(0, i as int),
        decreases v.len() - i,
    {
        out.push(v[i]);
        proof {
            assert(v@.subrange(0, i + 1) =~= v@.subrange(0, i as int).push(v@[i as int]));
        }
        i += 1;
    }
    proof {
        assert(v@.subrange(0, v@.len() as int) =~= v@);
    }
    out
}

fn holds_chord(v: &Vec<Chord>, chord: Chord) -> (r: bool)
    ensures
        r == v@.contains(chord),
{
    let mut i: usize = 0;
    while i < v.len()
        invariant
            i <= v@.len(),
            forall|j: int| 0 <= j < i ==> v@[j] != chord,
        decreases v.len() - i,
    {
        if v[i] == chord {
            proof {
                assert(v@[i as int] == chord);
            }
            return true;
        }
        i += 1;
    }
    false
}

impl Keys {
    /// The keys the DM chose for a control, when they chose any.
    pub closed spec fn chosen(&self) -> spec_fn(Action) -> Option<Seq<Chord>> {
        |action: Action| chosen_in(self.chosen@, action)
    }

    /// Every control with its default key.
    pub fn new() -> (r: Keys)
        ensures
            forall|a: Action| #[trigger] (r.chosen())(a) is None,
    {
        Keys { chosen: Vec::new() }
    }

    /// The keys a file holds for some controls; a later entry for one
    /// control stands over an earlier one, and a control with no key left
    /// keeps its default.
    pub fn from_entries(entries: Vec<(Action, Vec<Chord>)>) -> (r: Keys)
        ensures
            forall|a: Action| #[trigger] (r.chosen())(a) == (match chosen_in(entries@, a) {
                Some(chords) => if chords.len() == 0 { None } else { Some(chords) },
                None => None,
            }),
    {
        let mut keys = Keys::new();
        let mut i: usize = 0;
        while i < entries.len()
            invariant
                i <= entries@.len(),
                forall|a: Action| #[trigger] (keys.chosen())(a) == (match chosen_in(entries@.subrange(0, i as int), a) {
                    Some(chords) => if chords.len() == 0 { None } else { Some(chords) },
                    None => None,
                }),
            decreases entries.len() - i,
        {
            let action = entries[i].0;
            let chords = copy_chords(&entries[i].1);
            let ghost prefix = entries@.subrange(0, i + 1);
            proof {
                assert(prefix.drop_last() =~= entries@.subrange(0, i as int));
                assert(prefix.last() == entries@[i as int]);
            }
            if chords.len() == 0 {
                keys.forget(action);
            } else {
                keys.put(action, chords);
            }
            i += 1;
        }
        proof {
            assert(entries@.subrange(0, entries@.len() as int) =~= entries@);
        }
        keys
    }

    /// The keys the DM chose for a control, when they chose any.
    fn chosen_for(&self, action: Action) -> (r: Option<Vec<Chord>>)
        ensures
            match (self.chosen())(action) {
                Some(chords) => r matches Some(v) && v@ == chords,
                None => r is None,
            },
    {
        let mut i = self.chosen.len();
        proof {
            assert(self.chosen@.subrange(0, i as int) =~= self.chosen@);
        }
        while i > 0
            invariant
                i <= self.chosen@.len(),
                chosen_in(self.chosen@, action) == chosen_in(self.chosen@.subrange(0, i as int), action),
            decreases i,
        {
            let ghost prefix = self.chosen@.subrange(0, i as int);
            proof {
                assert(prefix.drop_last() =~= self.chosen@.subrange(0, i - 1));
            }
            if self.chosen[i - 1].0 == action {
                return Some(copy_chords(&self.chosen[i - 1].1));
            }
            i -= 1;
        }
        None
    }

    /// Every choice the DM made, one entry for each control they changed,
    /// in the order of the controls.
    pub fn entries(&self) -> (r: Vec<(Action, Vec<Chord>)>)
        ensures
            r@.map_values(|e: (Action, Vec<Chord>)| (e.0, e.1@)) == entries_in(self.chosen(), every_action()),
            forall|a: Action| #[trigger] chosen_in(r@, a) == (self.chosen())(a),
    {
        let all = actions();
        let mut out: Vec<(Action, Vec<Chord>)> = Vec::new();
        let mut k: usize = 0;
        while k < all.len()
            invariant
                k <= all@.len(),
                all@ == every_action(),
                out@.map_values(|e: (Action, Vec<Chord>)| (e.0, e.1@)) == entries_in(self.chosen(), all@.subrange(0, k as int)),
                forall|a: Action| #[trigger] chosen_in(out@, a) == if all@.subrange(0, k as int).contains(a) {
                    (self.chosen())(a)
                } else {
                    None
                },
            decreases all.len() - k,
        {
            let action = all[k];
            let ghost before = out@;
            let ghost upto = all@.subrange(0, k + 1);
            proof {
                assert(upto.drop_last() =~= all@.subrange(0, k as int));
                assert(upto.last() == action);
                assert forall|a: Action| upto.contains(a) <==> (all@.subrange(0, k as int).contains(a) || a == action) by {
                    if upto.contains(a) {
                        let j = choose|j: int| 0 <= j < upto.len() && upto[j] == a;
                        if j < k {
                            assert(all@.subrange(0, k as int)[j] == a);
                        }
                    }
                    if all@.subrange(0, k as int).contains(a) {
                        let j = choose|j: int| 0 <= j < k && all@.subrange(0, k as int)[j] == a;
                        assert(upto[j] == a);
                    }
                    if a == action {
                        assert(upto[k as int] == a);
                    }
                }
            }
            match self.chosen_for(action) {
                Some(chords) => {
                    out.push((action, chords));
                    proof {
                        assert(out@.drop_last() =~= before);
                        assert(out@.map_values(|e: (Action, Vec<Chord>)| (e.0, e.1@)) =~= before.map_values(
                            |e: (Action, Vec<Chord>)| (e.0, e.1@),
                        ).push((action, (self.chosen())(action)->0)));
                        assert forall|a: Action| #[trigger] chosen_in(out@, a) == if upto.contains(a) {
                            (self.chosen())(a)
                        } else {
                            None
                        } by {
                            assert(out@.last().0 == action);
                            if a != action {
                                assert(chosen_in(out@, a) == chosen_in(before, a));
                            }
                        }
                    }
                },
                None => {
                    proof {
                        assert forall|a: Action| #[trigger] chosen_in(out@, a) == if upto.contains(a) {
                            (self.chosen())(a)
                        } else {
                            None
                        } by {
                            if a == action {
                                assert((self.chosen())(a) is None);
                            }
                        }
                    }
                },
            }
            proof {
                assert(upto == all@.subrange(0, k + 1));
            }
            k += 1;
        }
        proof {
            assert(all@.subrange(0, all@.len() as int) =~= all@);
            assert forall|a: Action| #[trigger] every_action().contains(a) by {
                lemma_every_action_holds(a);
            }
        }
        out
    }

    /// Drops the keys the DM chose for one control.
    fn forget(&mut self, action: Action)
        ensures
            forall|a: Action| #[trigger] (final(self).chosen())(a) == if a == action { None } else { (old(self).chosen())(a) },
    {
        let ghost was = self.chosen@;
        let mut kept: Vec<(Action, Vec<Chord>)> = Vec::new();
        let mut i: usize = 0;
        while i < self.chosen.len()
            invariant
                i <= self.chosen@.len(),
                self.chosen@ == was,
                forall|a: Action| #[trigger] chosen_in(kept@, a) == if a == action {
                    None
                } else {
                    chosen_in(was.subrange(0, i as int), a)
                },
            decreases self.chosen.len() - i,
        {
            let ghost before = kept@;
            let prefix = i + 1;
            proof {
                assert(was.subrange(0, prefix as int).drop_last() =~= was.subrange(0, i as int));
            }
            if self.chosen[i].0 != action {
                let entry = (self.chosen[i].0, copy_chords(&self.chosen[i].1));
                kept.push(entry);
                proof {
                    assert(kept@.drop_last() =~= before);
                    assert forall|a: Action| #[trigger] chosen_in(kept@, a) == if a == action {
                        None
                    } else {
                        chosen_in(was.subrange(0, i + 1), a)
                    } by {
                        assert(kept@.last() == entry);
                        assert(entry.0 == was[i as int].0);
                        assert(kept@.last().1@ == was[i as int].1@);
                        assert(was.subrange(0, i + 1).last() == was[i as int]);
                        assert(was.subrange(0, i + 1).drop_last() =~= was.subrange(0, i as int));
                        if a == entry.0 {
                            assert(chosen_in(kept@, a) == Some(entry.1@));
                        } else {
                            assert(chosen_in(kept@, a) == chosen_in(before, a));
                            assert(chosen_in(was.subrange(0, i + 1), a) == chosen_in(was.subrange(0, i as int), a));
                        }
                    }
                }
            } else {
                proof {
                    assert(was[i as int].0 == action);
                    assert forall|a: Action| #[trigger] chosen_in(kept@, a) == if a == action {
                        None
                    } else {
                        chosen_in(was.subrange(0, i + 1), a)
                    } by {
                        assert(was.subrange(0, i + 1).last() == was[i as int]);
                        assert(was.subrange(0, i + 1).drop_last() =~= was.subrange(0, i as int));
                        if a != action {
                            assert(chosen_in(was.subrange(0, i + 1), a) == chosen_in(was.subrange(0, i as int), a));
                            assert(chosen_in(kept@, a) == chosen_in(was.subrange(0, i as int), a));
                        } else {
                            assert(chosen_in(kept@, a) == None::<Seq<Chord>>);
                        }
                    }
                }
            }
            i += 1;
        }
        proof {
            assert(was.subrange(0, was.len() as int) =~= was);
        }
        self.chosen = kept;
    }

    /// Puts `chords` on `action`, in place of the keys it had.
    fn put(&mut self, action: Action, chords: Vec<Chord>)
        ensures
            forall|a: Action| #[trigger] (final(self).chosen())(a) == if a == action {
                Some(chords@)
            } else {
                (old(self).chosen())(a)
            },
    {
        let ghost was = self.chosen@;
        self.chosen.push((action, chords));
        proof {
            assert(self.chosen@.drop_last() =~= was);
        }
    }

    /// The keys that start `action` now.
    pub fn of(&self, action: Action) -> (r: Vec<Chord>)
        ensures
            r@ == chords_now(self.chosen(), action),
    {
        let mut i = self.chosen.len();
        proof {
            assert(self.chosen@.subrange(0, i as int) =~= self.chosen@);
        }
        while i > 0
            invariant
                i <= self.chosen@.len(),
                chosen_in(self.chosen@, action) == chosen_in(self.chosen@.subrange(0, i as int), action),
            decreases i,
        {
            let ghost prefix = self.chosen@.subrange(0, i as int);
            proof {
                assert(prefix.drop_last() =~= self.chosen@.subrange(0, i - 1));
            }
            if self.chosen[i - 1].0 == action {
                return copy_chords(&self.chosen[i - 1].1);
            }
            i -= 1;
        }
        defaults(action)
    }

    /// Whether the DM changed no key.
    pub fn is_default(&self) -> (r: bool)
        ensures
            r == forall|a: Action| #[trigger] (self.chosen())(a) is None,
    {
        proof {
            if self.chosen@.len() > 0 {
                let a = self.chosen@.last().0;
                assert((self.chosen())(a) is Some);
            }
        }
        self.chosen.len() == 0
    }

    /// Brings back the default key of every control.
    pub fn reset(&mut self)
        ensures
            forall|a: Action| #[trigger] (final(self).chosen())(a) is None,
    {
        self.chosen.clear();
    }

    /// Puts `chord` on `action`, in place of the keys it had.
    ///
    /// # Errors
    ///
    /// Returns what holds the key when another control holds it, or when
    /// it belongs to a gesture or a dialog. The keys stay as they were.
    /// A chord that is the action's own default key leaves nothing chosen
    /// for it.
    pub fn set(&mut self, action: Action, chord: Chord) -> (r: Result<(), Taken>)
        ensures
            fixed_holder(chord) is Some ==> (r matches Err(Taken::Fixed(name)) && name@ == fixed_holder(chord)->0),
            fixed_holder(chord) is None ==> match holder_from(old(self).chosen(), every_action(), action, chord, 0) {
                Some(other) => r == Err::<(), Taken>(Taken::By(other)),
                None => r is Ok,
            },
            r is Err ==> forall|a: Action| #[trigger] (final(self).chosen())(a) == (old(self).chosen())(a),
            r is Ok ==> put_on(old(self).chosen(), final(self).chosen(), action, chord),
    {
        if let Some(label) = fixed(chord) {
            return Err(Taken::Fixed(label));
        }
        let all = actions();
        let mut k: usize = 0;
        while k < all.len()
            invariant
                k <= all@.len(),
                all@ == every_action(),
                fixed_holder(chord) is None,
                holder_from(self.chosen(), every_action(), action, chord, 0) == holder_from(self.chosen(), every_action(), action, chord, k as int),
            decreases all.len() - k,
        {
            let other = all[k];
            if other != action {
                let keys = self.of(other);
                if holds_chord(&keys, chord) {
                    return Err(Taken::By(other));
                }
            }
            k += 1;
        }
        let own = defaults(action);
        if own.len() == 1 && own[0] == chord {
            proof {
                assert(own@ =~= seq![chord]);
            }
            self.forget(action);
        } else {
            proof {
                if default_chords(action) == seq![chord] {
                    assert(own@.len() == 1 && own@[0] == chord);
                }
            }
            self.put(action, one(chord));
        }
        Ok(())
    }

    /// The control among `among` that a press of `key` starts, if any.
    /// A key held down starts only a control that repeats.
    pub fn action_of(&self, key: Key, held: Modifiers, repeat: bool, among: &[Action]) -> (r: Option<Action>)
        ensures
            r == started_from(self.chosen(), among@, key, held, repeat, 0),
    {
        let made = Chord::of(key, held);
        let mut k: usize = 0;
        while k < among.len()
            invariant
                k <= among@.len(),
                made == chord_of(key, held),
                started_from(self.chosen(), among@, key, held, repeat, 0) == started_from(self.chosen(), among@, key, held, repeat, k as int),
            decreases among.len() - k,
        {
            let action = among[k];
            if !repeat || action.repeats() {
                let keys = self.of(action);
                if holds_chord(&keys, made) {
                    return Some(action);
                }
            }
            k += 1;
        }
        None
    }
}

/// The keys after a key was put on a control, as [`Keys::set`] leaves them
/// when it takes the key.
pub open spec fn put_on(
    before: spec_fn(Action) -> Option<Seq<Chord>>,
    after: spec_fn(Action) -> Option<Seq<Chord>>,
    action: Action,
    chord: Chord,
) -> bool {
    forall|a: Action| #[trigger] after(a) == if a != action {
        before(a)
    } else if default_chords(action) == seq![chord] {
        None
    } else {
        Some(seq![chord])
    }
}

/// A key put on a control is the one key that starts it, and every other
/// control keeps the keys it had.
pub proof fn lemma_a_set_key_is_the_only_key(
    before: spec_fn(Action) -> Option<Seq<Chord>>,
    after: spec_fn(Action) -> Option<Seq<Chord>>,
    action: Action,
    chord: Chord,
)
    requires
        put_on(before, after, action, chord),
    ensures
        chords_now(after, action) == seq![chord],
        forall|a: Action| a != action ==> #[trigger] chords_now(after, a) == chords_now(before, a),
{
    assert(after(action) == if default_chords(action) == seq![chord] { None } else { Some(seq![chord]) });
    assert forall|a: Action| a != action implies #[trigger] chords_now(after, a) == chords_now(before, a) by {
        assert(after(a) == before(a));
    }
}

} // verus!
