//! How a chord reads as text: in the config file, such as `Ctrl+Shift+Z`,
//! and in the list of keys, such as `Ctrl + Shift + Z`.
//!
//! egui names the keys: a stored chord reads back through egui's names,
//! and this module puts the modifiers round a name and reads them back.

use vstd::prelude::*;

use crate::bindings::{Chord, Key, Modifiers, chord_of};
use crate::text::{chars_of, find_char, find_in_chars, lemma_find_char, push_char, push_chars, spells};

verus! {

/// `word` and a `+` when `on`, and nothing otherwise.
pub open spec fn marked(on: bool, word: Seq<char>) -> Seq<char> {
    if on {
        word.push('+')
    } else {
        Seq::empty()
    }
}

/// The chord as the config file holds it: the modifiers it holds, each
/// with a `+`, then the name of the key.
pub open spec fn stored_form(chord: Chord, name: Seq<char>) -> Seq<char> {
    marked(chord.ctrl, "Ctrl"@) + marked(chord.shift, "Shift"@) + marked(chord.alt, "Alt"@) + name
}

/// `word` and ` + ` when `on`, and nothing otherwise.
pub open spec fn spaced(on: bool, word: Seq<char>) -> Seq<char> {
    if on {
        word + " + "@
    } else {
        Seq::empty()
    }
}

/// The chord as the list of keys names it: the modifiers it holds, each
/// with ` + `, then the name of the key.
pub open spec fn shown_form(chord: Chord, name: Seq<char>) -> Seq<char> {
    spaced(chord.ctrl, "Ctrl"@) + spaced(chord.shift, "Shift"@) + spaced(chord.alt, "Alt"@) + name
}

/// No modifier held.
pub open spec fn none_held() -> Modifiers {
    Modifiers { command: false, shift: false, alt: false }
}

/// `held` with one more modifier, named by `word`; `None` for a word that
/// names none.
pub open spec fn with_word(held: Modifiers, word: Seq<char>) -> Option<Modifiers> {
    if word == "Ctrl"@ {
        Some(Modifiers { command: true, ..held })
    } else if word == "Shift"@ {
        Some(Modifiers { shift: true, ..held })
    } else if word == "Alt"@ {
        Some(Modifiers { alt: true, ..held })
    } else {
        None
    }
}

/// Reads a stored chord from place `from` of `s`: the modifiers before the
/// last `+`, and the place where the name of the key starts. Each word
/// before a `+` must name a modifier.
pub open spec fn read_from(s: Seq<char>, from: int) -> Option<(Modifiers, int)>
    decreases s.len() - from,
{
    if from < 0 || from > s.len() {
        None
    } else {
        match find_char(s, '+', from) {
            None => Some((none_held(), from)),
            Some(p) => if from <= p < s.len() {
                match read_from(s, p + 1) {
                    None => None,
                    Some((held, at)) => match with_word(held, s.subrange(from, p)) {
                        Some(more) => Some((more, at)),
                        None => None,
                    },
                }
            } else {
                None
            },
        }
    }
}

/// What a stored chord holds: its modifiers and the name of its key, or
/// `None` when a word before a `+` names no modifier.
pub open spec fn stored_reading(s: Seq<char>) -> Option<(Modifiers, Seq<char>)> {
    match read_from(s, 0) {
        Some((held, at)) => Some((held, s.subrange(at, s.len() as int))),
        None => None,
    }
}

/// Appends the characters of `s`.
fn push_str(out: &mut String, s: &str)
    ensures
        final(out)@ == old(out)@ + s@,
{
    let cs = chars_of(s);
    push_chars(out, &cs, 0, cs.len());
    proof {
        assert(cs@.subrange(0, cs@.len() as int) =~= s@);
    }
}

impl Chord {
    /// The chord as the config file holds it, such as `Ctrl+Shift+Z`, with
    /// `name` the name of its key.
    pub fn stored(self, name: &str) -> (r: String)
        ensures
            r@ == stored_form(self, name@),
    {
        let mut out = String::new();
        if self.ctrl {
            push_str(&mut out, "Ctrl");
            push_char(&mut out, '+');
        }
        let ghost a = out@;
        if self.shift {
            push_str(&mut out, "Shift");
            push_char(&mut out, '+');
        }
        let ghost b = out@;
        if self.alt {
            push_str(&mut out, "Alt");
            push_char(&mut out, '+');
        }
        let ghost c = out@;
        push_str(&mut out, name);
        proof {
            assert(a =~= marked(self.ctrl, "Ctrl"@));
            assert(b =~= marked(self.ctrl, "Ctrl"@) + marked(self.shift, "Shift"@));
            assert(c =~= marked(self.ctrl, "Ctrl"@) + marked(self.shift, "Shift"@) + marked(self.alt, "Alt"@));
        }
        out
    }

    /// The chord as the list of keys names it, such as `Ctrl + Shift + Z`,
    /// with `name` the name the list gives its key.
    pub fn shown(self, name: &str) -> (r: String)
        ensures
            r@ == shown_form(self, name@),
    {
        let mut out = String::new();
        if self.ctrl {
            push_str(&mut out, "Ctrl");
            push_str(&mut out, " + ");
        }
        let ghost a = out@;
        if self.shift {
            push_str(&mut out, "Shift");
            push_str(&mut out, " + ");
        }
        let ghost b = out@;
        if self.alt {
            push_str(&mut out, "Alt");
            push_str(&mut out, " + ");
        }
        let ghost c = out@;
        push_str(&mut out, name);
        proof {
            assert(a =~= spaced(self.ctrl, "Ctrl"@));
            assert(b =~= spaced(self.ctrl, "Ctrl"@) + spaced(self.shift, "Shift"@));
            assert(c =~= spaced(self.ctrl, "Ctrl"@) + spaced(self.shift, "Shift"@) + spaced(self.alt, "Alt"@));
        }
        out
    }
}

/// The name the list gives a key: four keys get a name of two words or a
/// whole word, and any other key the symbol or name `symbol_or_name`.
pub open spec fn key_label(key: Key, symbol_or_name: Seq<char>) -> Seq<char> {
    match key {
        Key::PageUp => "Page Up"@,
        Key::PageDown => "Page Down"@,
        Key::Backspace => "Backspace"@,
        Key::Delete => "Delete"@,
        _ => symbol_or_name,
    }
}

/// How the list names a key, given the symbol or name the keyboard layer
/// has for it.
pub fn key_name<'a>(key: Key, symbol_or_name: &'a str) -> (r: &'a str)
    ensures
        r@ == key_label(key, symbol_or_name@),
{
    match key {
        Key::PageUp => "Page Up",
        Key::PageDown => "Page Down",
        Key::Backspace => "Backspace",
        Key::Delete => "Delete",
        _ => symbol_or_name,
    }
}

/// `held` with the modifier that the characters of `cs` from `from` up to
/// `to` name.
fn add_word(held: Modifiers, cs: &Vec<char>, from: usize, to: usize) -> (r: Option<Modifiers>)
    requires
        from <= to <= cs@.len(),
    ensures
        r == with_word(held, cs@.subrange(from as int, to as int)),
{
    let ctrl = chars_of("Ctrl");
    let shift = chars_of("Shift");
    let alt = chars_of("Alt");
    if spells(cs, from, to, &ctrl) {
        Some(Modifiers { command: true, ..held })
    } else if spells(cs, from, to, &shift) {
        Some(Modifiers { shift: true, ..held })
    } else if spells(cs, from, to, &alt) {
        Some(Modifiers { alt: true, ..held })
    } else {
        None
    }
}

fn read_at(cs: &Vec<char>, from: usize) -> (r: Option<(Modifiers, usize)>)
    requires
        from <= cs@.len(),
    ensures
        match r {
            Some((held, at)) => read_from(cs@, from as int) == Some((held, at as int)) && at <= cs@.len(),
            None => read_from(cs@, from as int) is None,
        },
    decreases cs@.len() - from,
{
    let found = find_in_chars(cs, '+', from);
    proof {
        lemma_find_char(cs@, '+', from as int);
    }
    match found {
        None => Some((Modifiers { command: false, shift: false, alt: false }, from)),
        Some(p) => {
            assert(find_char(cs@, '+', from as int) == Some(p as int));
            let n = cs.len();
            assert(p < n);
            match read_at(cs, p + 1) {
            None => None,
            Some((held, at)) => match add_word(held, cs, from, p) {
                Some(more) => Some((more, at)),
                None => None,
            },
        }},
    }
}

/// Reads a chord the config file holds: the modifiers it names and the
/// name of its key, or `None` when a word before a `+` names no modifier.
/// The caller turns the name into a key, and a name the keyboard layer
/// does not know drops the chord.
pub fn read_stored(stored: &str) -> (r: Option<(Modifiers, String)>)
    ensures
        match stored_reading(stored@) {
            Some((held, name)) => r matches Some(x) && x.0 == held && x.1@ == name,
            None => r is None,
        },
{
    let cs = chars_of(stored);
    match read_at(&cs, 0) {
        Some((held, at)) => {
            let mut name = String::new();
            push_chars(&mut name, &cs, at, cs.len());
            Some((held, name))
        },
        None => None,
    }
}

/// The key that egui's code for a key stands for. egui numbers its keys by
/// their place in its list of keys; each key a default or a rule names has
/// a variant of its own, and any other keeps its code.
pub open spec fn key_from_code(code: u32) -> Key {
    match code {
        0 => Key::ArrowDown,
        1 => Key::ArrowLeft,
        2 => Key::ArrowRight,
        3 => Key::ArrowUp,
        4 => Key::Escape,
        5 => Key::Tab,
        6 => Key::Backspace,
        7 => Key::Enter,
        8 => Key::Space,
        10 => Key::Delete,
        13 => Key::PageUp,
        14 => Key::PageDown,
        18 => Key::Colon,
        22 => Key::Pipe,
        23 => Key::Questionmark,
        24 => Key::Exclamationmark,
        27 => Key::OpenCurlyBracket,
        28 => Key::CloseCurlyBracket,
        30 => Key::Minus,
        32 => Key::Plus,
        33 => Key::Equals,
        36 => Key::Num0,
        51 => Key::F,
        61 => Key::P,
        63 => Key::R,
        65 => Key::T,
        70 => Key::Y,
        71 => Key::Z,
        _ => Key::Other(code),
    }
}

/// The key that egui's code for a key stands for.
pub fn key_for_code(code: u32) -> (r: Key)
    ensures
        r == key_from_code(code),
{
    match code {
        0 => Key::ArrowDown,
        1 => Key::ArrowLeft,
        2 => Key::ArrowRight,
        3 => Key::ArrowUp,
        4 => Key::Escape,
        5 => Key::Tab,
        6 => Key::Backspace,
        7 => Key::Enter,
        8 => Key::Space,
        10 => Key::Delete,
        13 => Key::PageUp,
        14 => Key::PageDown,
        18 => Key::Colon,
        22 => Key::Pipe,
        23 => Key::Questionmark,
        24 => Key::Exclamationmark,
        27 => Key::OpenCurlyBracket,
        28 => Key::CloseCurlyBracket,
        30 => Key::Minus,
        32 => Key::Plus,
        33 => Key::Equals,
        36 => Key::Num0,
        51 => Key::F,
        61 => Key::P,
        63 => Key::R,
        65 => Key::T,
        70 => Key::Y,
        71 => Key::Z,
        _ => Key::Other(code),
    }
}

/// The code of the key that egui reads from a name, such as `Z`, `Plus`
/// or `PageUp`, or `None` for a name it does not know.
pub uninterp spec fn key_code_named(name: Seq<char>) -> Option<u32>;

/// The code of the key of this name.
///
/// Calls `egui::Key::from_name`, which matches the name against a fixed
/// list of names and symbols and gives the key, or `None`; the result
/// depends on the name alone, and is named by it. The key converts to its
/// code, its place in egui's list of keys.
#[verifier::external_body]
fn key_code(name: &str) -> (r: Option<u32>)
    ensures
        r == key_code_named(name@),
{
    match egui::Key::from_name(name) {
        Some(key) => Some(key as u32),
        None => None,
    }
}

/// Reads a chord the config file holds, such as `Ctrl+Shift+Z`: the
/// modifiers it names and the key egui reads from the name after them,
/// made into the chord a press of them makes. `None` for a word before a
/// `+` that names no modifier, or a name egui does not know.
pub fn parse_chord(text: &str) -> (r: Option<Chord>)
    ensures
        match stored_reading(text@) {
            Some((held, name)) => match key_code_named(name) {
                Some(code) => r == Some(chord_of(key_from_code(code), held)),
                None => r is None,
            },
            None => r is None,
        },
{
    match read_stored(text) {
        Some((held, name)) => match key_code(name.as_str()) {
            Some(code) => Some(Chord::of(key_for_code(code), held)),
            None => None,
        },
        None => None,
    }
}

/// egui's code for a key of the library: the inverse of
/// [`key_from_code`].
pub open spec fn code_of_key(key: Key) -> u32 {
    match key {
        Key::Z => 71,
        Key::Y => 70,
        Key::T => 65,
        Key::P => 61,
        Key::R => 63,
        Key::F => 51,
        Key::Plus => 32,
        Key::Minus => 30,
        Key::Equals => 33,
        Key::Num0 => 36,
        Key::Questionmark => 23,
        Key::Colon => 18,
        Key::Pipe => 22,
        Key::Exclamationmark => 24,
        Key::OpenCurlyBracket => 27,
        Key::CloseCurlyBracket => 28,
        Key::PageUp => 13,
        Key::PageDown => 14,
        Key::Delete => 10,
        Key::Backspace => 6,
        Key::ArrowLeft => 1,
        Key::ArrowRight => 2,
        Key::ArrowUp => 3,
        Key::ArrowDown => 0,
        Key::Escape => 4,
        Key::Space => 8,
        Key::Enter => 7,
        Key::Tab => 5,
        Key::Other(code) => code,
    }
}

/// egui's code for a key of the library.
pub fn key_code_of(key: Key) -> (r: u32)
    ensures
        r == code_of_key(key),
{
    match key {
        Key::Z => 71,
        Key::Y => 70,
        Key::T => 65,
        Key::P => 61,
        Key::R => 63,
        Key::F => 51,
        Key::Plus => 32,
        Key::Minus => 30,
        Key::Equals => 33,
        Key::Num0 => 36,
        Key::Questionmark => 23,
        Key::Colon => 18,
        Key::Pipe => 22,
        Key::Exclamationmark => 24,
        Key::OpenCurlyBracket => 27,
        Key::CloseCurlyBracket => 28,
        Key::PageUp => 13,
        Key::PageDown => 14,
        Key::Delete => 10,
        Key::Backspace => 6,
        Key::ArrowLeft => 1,
        Key::ArrowRight => 2,
        Key::ArrowUp => 3,
        Key::ArrowDown => 0,
        Key::Escape => 4,
        Key::Space => 8,
        Key::Enter => 7,
        Key::Tab => 5,
        Key::Other(code) => code,
    }
}

/// The code of the key at this place of egui's list of keys, or `None`
/// past its end.
pub uninterp spec fn code_at(place: usize) -> Option<u32>;

/// The name egui gives the key at this place of its list, such as `Z` or
/// `PageUp`.
pub uninterp spec fn name_at(place: usize) -> Option<Seq<char>>;

/// The symbol or name egui shows for the key at this place of its list,
/// such as `+` or `F`.
pub uninterp spec fn symbol_at(place: usize) -> Option<Seq<char>>;

/// The code of the key at this place of egui's list of keys.
///
/// Reads `egui::Key::ALL`, a fixed list, and converts the key to its code.
/// The result depends on the place alone.
#[verifier::external_body]
fn key_code_at(place: usize) -> (r: Option<u32>)
    ensures
        r == code_at(place),
{
    match egui::Key::ALL.get(place) {
        Some(key) => Some(*key as u32),
        None => None,
    }
}

/// The name egui gives the key at this place of its list.
///
/// Calls `egui::Key::name` on the key at that place of `egui::Key::ALL`;
/// the name is fixed for each key, so the result depends on the place
/// alone.
#[verifier::external_body]
fn key_name_at(place: usize) -> (r: Option<&'static str>)
    ensures
        r is Some == name_at(place) is Some,
        r is Some ==> r->0@ == name_at(place)->0,
{
    match egui::Key::ALL.get(place) {
        Some(key) => Some(key.name()),
        None => None,
    }
}

/// The symbol or name egui shows for the key at this place of its list.
///
/// Calls `egui::Key::symbol_or_name` on the key at that place of
/// `egui::Key::ALL`; the text is fixed for each key, so the result depends
/// on the place alone.
#[verifier::external_body]
fn key_symbol_at(place: usize) -> (r: Option<&'static str>)
    ensures
        r is Some == symbol_at(place) is Some,
        r is Some ==> r->0@ == symbol_at(place)->0,
{
    match egui::Key::ALL.get(place) {
        Some(key) => Some(key.symbol_or_name()),
        None => None,
    }
}

/// The first place from `p` on where egui's list holds the key of this
/// code, before the list ends.
pub open spec fn place_from(code: u32, p: nat) -> Option<nat>
    decreases usize::MAX - p,
{
    if p >= usize::MAX {
        None
    } else {
        match code_at(p as usize) {
            None => None,
            Some(c) => if c == code {
                Some(p)
            } else {
                place_from(code, p + 1)
            },
        }
    }
}

/// The place of the key of this code in egui's list of keys.
fn place_of(code: u32) -> (r: Option<usize>)
    ensures
        match place_from(code, 0) {
            Some(p) => r == Some(p as usize),
            None => r is None,
        },
{
    let mut p: usize = 0;
    while p < usize::MAX
        invariant
            place_from(code, 0) == place_from(code, p as nat),
        decreases usize::MAX - p,
    {
        match key_code_at(p) {
            None => {
                return None;
            },
            Some(c) => {
                if c == code {
                    return Some(p);
                }
            },
        }
        p += 1;
    }
    None
}

/// The name egui gives a key of the library, when its list holds the key.
pub open spec fn key_name_of(key: Key) -> Option<Seq<char>> {
    match place_from(code_of_key(key), 0) {
        Some(p) => name_at(p as usize),
        None => None,
    }
}

/// The symbol or name egui shows for a key of the library, when its list
/// holds the key.
pub open spec fn key_symbol_of(key: Key) -> Option<Seq<char>> {
    match place_from(code_of_key(key), 0) {
        Some(p) => symbol_at(p as usize),
        None => None,
    }
}

/// The chord as the config file holds it, such as `Ctrl+Shift+Z`, with
/// the name egui gives its key; `None` for a key egui does not list.
pub fn stored_chord(chord: Chord) -> (r: Option<String>)
    ensures
        key_name_of(chord.key) is None ==> r is None,
        key_name_of(chord.key) is Some ==> r is Some && r->0@ == stored_form(chord, key_name_of(chord.key)->0),
{
    match place_of(key_code_of(chord.key)) {
        Some(p) => match key_name_at(p) {
            Some(name) => Some(chord.stored(name)),
            None => None,
        },
        None => None,
    }
}

/// The chord as the list of keys names it, such as `Ctrl + Shift + Z`,
/// with the name [`key_name`] gives its key; `None` for a key egui does not
/// list.
pub fn chord_label(chord: Chord) -> (r: Option<String>)
    ensures
        key_symbol_of(chord.key) is None ==> r is None,
        key_symbol_of(chord.key) is Some ==> r is Some && r->0@ == shown_form(
            chord,
            key_label(chord.key, key_symbol_of(chord.key)->0),
        ),
{
    match place_of(key_code_of(chord.key)) {
        Some(p) => match key_symbol_at(p) {
            Some(symbol) => Some(chord.shown(key_name(chord.key, symbol))),
            None => None,
        },
        None => None,
    }
}

/// No `+` stands in `s` from place `k` on, so the search finds none.
proof fn lemma_no_plus(s: Seq<char>, k: int)
    requires
        0 <= k <= s.len(),
        !s.subrange(k, s.len() as int).contains('+'),
    ensures
        find_char(s, '+', k) is None,
    decreases s.len() - k,
{
    if k < s.len() {
        assert(s.subrange(k, s.len() as int)[0] == s[k]);
        assert(s.subrange(k + 1, s.len() as int) =~= s.subrange(k, s.len() as int).subrange(1, s.len() - k));
        lemma_no_plus(s, k + 1);
    }
}

/// The first `+` from place `k` on stands at `p`.
proof fn lemma_plus_at(s: Seq<char>, k: int, p: int)
    requires
        0 <= k <= p < s.len(),
        s[p] == '+',
        !s.subrange(k, p).contains('+'),
    ensures
        find_char(s, '+', k) == Some(p),
    decreases p - k,
{
    if k < p {
        assert(s.subrange(k, p)[0] == s[k]);
        assert(s.subrange(k + 1, p) =~= s.subrange(k, p).subrange(1, p - k));
        lemma_plus_at(s, k + 1, p);
    }
}

/// A modifier word, then `+`, at place `k` of `s`, before a stored tail
/// that reads as `held` with its name at `at`.
proof fn lemma_read_word(s: Seq<char>, k: int, word: Seq<char>, held: Modifiers, at: int)
    requires
        0 <= k,
        k + word.len() < s.len(),
        s.subrange(k, k + word.len()) == word,
        !word.contains('+'),
        s[k + word.len()] == '+',
        read_from(s, k + word.len() + 1) == Some((held, at)),
    ensures
        read_from(s, k) == match with_word(held, word) {
            Some(more) => Some((more, at)),
            None => None::<(Modifiers, int)>,
        },
{
    lemma_plus_at(s, k, k + word.len());
}

/// What [`Chord::stored`] writes reads back as the chord's modifiers and
/// the name of its key, for a name without a `+`.
pub proof fn lemma_stored_reads_back(chord: Chord, name: Seq<char>)
    requires
        !name.contains('+'),
    ensures
        stored_reading(stored_form(chord, name)) == Some((
            Modifiers { command: chord.ctrl, shift: chord.shift, alt: chord.alt },
            name,
        )),
{
    reveal_strlit("Ctrl");
    reveal_strlit("Shift");
    reveal_strlit("Alt");
    let m1 = marked(chord.ctrl, "Ctrl"@);
    let m2 = marked(chord.shift, "Shift"@);
    let m3 = marked(chord.alt, "Alt"@);
    let s = stored_form(chord, name);
    let i1 = m1.len() as int;
    let i2 = i1 + m2.len();
    let i3 = i2 + m3.len();
    assert(s =~= m1 + m2 + m3 + name);
    assert(s.subrange(i3, s.len() as int) =~= name);
    lemma_no_plus(s, i3);
    let h3 = none_held();
    assert(read_from(s, i3) == Some((h3, i3)));
    let h2 = if chord.alt { Modifiers { alt: true, ..h3 } } else { h3 };
    if chord.alt {
        assert(s.subrange(i2, i2 + 3) =~= "Alt"@);
        assert(!"Alt"@.contains('+')) by {
            assert forall|j: int| 0 <= j < 3 implies "Alt"@[j] != '+' by {}
        }
        lemma_read_word(s, i2, "Alt"@, h3, i3);
    }
    assert(read_from(s, i2) == Some((h2, i3)));
    let h1 = if chord.shift { Modifiers { shift: true, ..h2 } } else { h2 };
    if chord.shift {
        assert(s.subrange(i1, i1 + 5) =~= "Shift"@);
        assert(!"Shift"@.contains('+')) by {
            assert forall|j: int| 0 <= j < 5 implies "Shift"@[j] != '+' by {}
        }
        lemma_read_word(s, i1, "Shift"@, h2, i3);
    }
    assert(read_from(s, i1) == Some((h1, i3)));
    let h0 = if chord.ctrl { Modifiers { command: true, ..h1 } } else { h1 };
    if chord.ctrl {
        assert(s.subrange(0, 4) =~= "Ctrl"@);
        assert(!"Ctrl"@.contains('+')) by {
            assert forall|j: int| 0 <= j < 4 implies "Ctrl"@[j] != '+' by {}
        }
        lemma_read_word(s, 0, "Ctrl"@, h1, i3);
    }
    assert(read_from(s, 0) == Some((h0, i3)));
}

/// The list of keys names every modifier a chord holds and no other, in
/// the order Ctrl, Shift, Alt, each with ` + ` after it, and ends with the
/// name of the key.
pub proof fn lemma_shown_names_the_modifiers(chord: Chord, name: Seq<char>)
    ensures
        ({
            let t = shown_form(chord, name);
            &&& t.len() >= name.len()
            &&& t.subrange(t.len() - name.len(), t.len() as int) == name
            &&& (!chord.ctrl && !chord.shift && !chord.alt) ==> t == name
            &&& (chord.ctrl && !chord.shift && !chord.alt) ==> t == "Ctrl + "@ + name
            &&& (!chord.ctrl && chord.shift && !chord.alt) ==> t == "Shift + "@ + name
            &&& (!chord.ctrl && !chord.shift && chord.alt) ==> t == "Alt + "@ + name
            &&& (chord.ctrl && chord.shift && !chord.alt) ==> t == "Ctrl + "@ + "Shift + "@ + name
            &&& (chord.ctrl && !chord.shift && chord.alt) ==> t == "Ctrl + "@ + "Alt + "@ + name
            &&& (!chord.ctrl && chord.shift && chord.alt) ==> t == "Shift + "@ + "Alt + "@ + name
            &&& (chord.ctrl && chord.shift && chord.alt) ==> t == "Ctrl + "@ + "Shift + "@ + "Alt + "@ + name
        }),
{
    reveal_strlit("Ctrl");
    reveal_strlit("Shift");
    reveal_strlit("Alt");
    reveal_strlit(" + ");
    reveal_strlit("Ctrl + ");
    reveal_strlit("Shift + ");
    reveal_strlit("Alt + ");
    let m1 = spaced(chord.ctrl, "Ctrl"@);
    let m2 = spaced(chord.shift, "Shift"@);
    let m3 = spaced(chord.alt, "Alt"@);
    let t = shown_form(chord, name);
    assert("Ctrl"@ + " + "@ =~= "Ctrl + "@);
    assert("Shift"@ + " + "@ =~= "Shift + "@);
    assert("Alt"@ + " + "@ =~= "Alt + "@);
    assert(t =~= (m1 + m2 + m3) + name);
    assert(t.subrange(t.len() - name.len(), t.len() as int) =~= name);
    assert(Seq::<char>::empty() + name =~= name);
    assert(Seq::<char>::empty() + Seq::<char>::empty() + Seq::<char>::empty() + name =~= name);
    assert(m1 + m2 + m3 + name =~= m1 + (m2 + (m3 + name)));
}

} // verus!
