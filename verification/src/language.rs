//! The languages the program carries, and which one a system locale asks
//! for.
//!
//! English answers for every key. A translation holds a line or leaves it
//! out, and a line it leaves out falls back to English, so the window never
//! shows a bare key.

use vstd::prelude::*;

use crate::catalog::{english, english_lines, key_names, COUNT};
use crate::text::{chars_of, same_chars};

verus! {

/// The language of a first run, when the system asks for none we hold.
pub const DEFAULT: &'static str = "en";

/// One language the program carries.
#[derive(Debug, Clone)]
pub struct Language {
    /// Its code, such as `ru`.
    pub code: &'static str,
    /// What that language calls itself.
    pub name: &'static str,
    /// Its lines, in key order. `None` falls back to English.
    pub strings: Vec<Option<&'static str>>,
}

impl Language {
    /// Whether the language holds a place, or none, for every key.
    pub open spec fn whole(&self) -> bool {
        self.strings@.len() == COUNT
    }
}

/// Whether a place of a language holds the English line of that place.
pub open spec fn english_at(line: Option<&'static str>, place: int) -> bool {
    line matches Some(s) && s@ == english_lines()[place]
}

/// The codes of the languages the program carries, English first.
pub open spec fn language_codes() -> Seq<Seq<char>> {
    seq!["en"@]
}

/// The English language: every line of the catalog in its place.
fn english_language() -> (r: Language)
    ensures
        r.code@ == "en"@,
        r.name@ == "English"@,
        r.whole(),
        forall|i: int| 0 <= i < COUNT ==> english_at(#[trigger] r.strings@[i], i),
{
    let lines = english();
    let mut strings: Vec<Option<&'static str>> = Vec::new();
    let mut i: usize = 0;
    while i < COUNT
        invariant
            i <= COUNT,
            lines@.len() == COUNT,
            forall|j: int| 0 <= j < COUNT ==> (#[trigger] lines@[j])@ == english_lines()[j],
            strings@.len() == i,
            forall|j: int| 0 <= j < i ==> (#[trigger] strings@[j]) == Some(lines@[j]),
        decreases COUNT - i,
    {
        strings.push(Some(lines[i]));
        i += 1;
    }
    proof {
        assert forall|j: int| 0 <= j < COUNT implies english_at(#[trigger] strings@[j], j) by {
            assert(strings@[j] == Some(lines@[j]));
        }
    }
    Language { code: "en", name: "English", strings }
}

/// Another language with the same code, name and lines.
fn copy_language(l: &Language) -> (r: Language)
    ensures
        r.code == l.code,
        r.name == l.name,
        r.strings@ == l.strings@,
{
    let mut strings: Vec<Option<&'static str>> = Vec::new();
    let mut i: usize = 0;
    while i < l.strings.len()
        invariant
            i <= l.strings@.len(),
            strings@ == l.strings@.subrange(0, i as int),
        decreases l.strings.len() - i,
    {
        strings.push(l.strings[i]);
        proof {
            assert(l.strings@.subrange(0, i + 1) =~= l.strings@.subrange(0, i as int).push(l.strings@[i as int]));
        }
        i += 1;
    }
    proof {
        assert(l.strings@.subrange(0, l.strings@.len() as int) =~= l.strings@);
    }
    Language { code: l.code, name: l.name, strings }
}

/// Every language the program carries, English first.
pub fn languages() -> (r: Vec<Language>)
    ensures
        r@.len() == language_codes().len(),
        forall|k: int| 0 <= k < r@.len() ==> (#[trigger] r@[k]).code@ == language_codes()[k] && r@[k].whole(),
        r@[0].name@ == "English"@,
        forall|i: int| 0 <= i < COUNT ==> english_at(#[trigger] r@[0].strings@[i], i),
{
    let mut out: Vec<Language> = Vec::new();
    out.push(english_language());
    out
}

/// The language of this code, when the program carries one.
pub fn language(code: &str) -> (r: Option<Language>)
    ensures
        r is Some <==> language_codes().contains(code@),
        r matches Some(l) ==> l.code@ == code@ && l.whole(),
{
    let all = languages();
    let wanted = chars_of(code);
    let mut k: usize = 0;
    while k < all.len()
        invariant
            k <= all@.len(),
            wanted@ == code@,
            all@.len() == language_codes().len(),
            forall|j: int| 0 <= j < all@.len() ==> (#[trigger] all@[j]).code@ == language_codes()[j] && all@[j].whole(),
            forall|j: int| 0 <= j < k ==> language_codes()[j] != code@,
        decreases all.len() - k,
    {
        let here = chars_of(all[k].code);
        if same_chars(&here, &wanted) {
            proof {
                assert(language_codes()[k as int] == code@);
            }
            return Some(copy_language(&all[k]));
        }
        k += 1;
    }
    proof {
        if language_codes().contains(code@) {
            let j = choose|j: int| 0 <= j < language_codes().len() && language_codes()[j] == code@;
            assert(language_codes()[j] == code@);
        }
    }
    None
}

/// The line at one place of the catalog in a language, or in English
/// where that language has none, or where no language is picked.
pub open spec fn line_at(active: Option<Language>, place: int) -> Seq<char> {
    match active {
        Some(l) => match l.strings@[place] {
            Some(s) => s@,
            None => english_lines()[place],
        },
        None => english_lines()[place],
    }
}

/// The line at one place of the catalog, in the language the DM picked.
///
/// A language that lacks the line falls back to English, and so does no
/// language at all.
pub fn at(active: Option<&Language>, place: usize) -> (r: &'static str)
    requires
        place < COUNT,
        active matches Some(l) ==> l.whole(),
    ensures
        r@ == line_at(match active { Some(l) => Some(*l), None => None }, place as int),
{
    if let Some(l) = active {
        if let Some(s) = l.strings[place] {
            return s;
        }
    }
    let lines = english();
    lines[place]
}

/// The keys a language leaves to English, in key order.
pub open spec fn fallen_back(keys: Seq<Seq<char>>, strings: Seq<Option<&'static str>>) -> Seq<Seq<char>>
    decreases strings.len(),
{
    if strings.len() == 0 {
        Seq::empty()
    } else {
        let before = fallen_back(keys, strings.drop_last());
        if strings.last() is None { before.push(keys[strings.len() - 1]) } else { before }
    }
}

/// The keys a language leaves to English, in key order, so a translator
/// sees at once what their file still lacks.
pub fn missing_keys(language: &Language) -> (r: Vec<&'static str>)
    requires
        language.whole(),
    ensures
        r@.map_values(|k: &'static str| k@) == fallen_back(key_names(), language.strings@),
{
    let keys = crate::catalog::keys();
    let mut out: Vec<&'static str> = Vec::new();
    let mut i: usize = 0;
    while i < COUNT
        invariant
            i <= COUNT,
            language.strings@.len() == COUNT,
            keys@.len() == COUNT,
            forall|j: int| 0 <= j < COUNT ==> (#[trigger] keys@[j])@ == key_names()[j],
            out@.map_values(|k: &'static str| k@) == fallen_back(key_names(), language.strings@.subrange(0, i as int)),
        decreases COUNT - i,
    {
        let ghost before = out@;
        proof {
            assert(language.strings@.subrange(0, i + 1).drop_last() =~= language.strings@.subrange(0, i as int));
        }
        if language.strings[i].is_none() {
            out.push(keys[i]);
            proof {
                assert(out@.map_values(|k: &'static str| k@) =~= before.map_values(|k: &'static str| k@).push(keys@[i as int]@));
            }
        }
        i += 1;
    }
    proof {
        assert(language.strings@.subrange(0, COUNT as int) =~= language.strings@);
    }
    out
}

/// Whether a character ends the language part of a locale.
pub open spec fn ends_language(c: char) -> bool {
    c == '.' || c == '_' || c == '-'
}

/// The language part of a locale: all before the first `.`, `_` or `-`.
pub open spec fn locale_head(s: Seq<char>) -> Seq<char>
    decreases s.len(),
{
    if s.len() == 0 || ends_language(s[0]) {
        Seq::empty()
    } else {
        seq![s[0]] + locale_head(s.drop_first())
    }
}

/// A character in lower case, for the letters of ASCII.
pub open spec fn ascii_lower(c: char) -> char {
    if 'A' <= c && c <= 'Z' { ((c as u32) + 32) as char } else { c }
}

/// A text with its ASCII letters in lower case.
pub open spec fn lowered(s: Seq<char>) -> Seq<char> {
    s.map_values(|c: char| ascii_lower(c))
}

/// The language a locale asks for: its language part in lower case.
pub open spec fn asked_language(locale: Seq<char>) -> Seq<char> {
    lowered(locale_head(locale))
}

fn lower_char(c: char) -> (r: char)
    ensures
        r == ascii_lower(c),
{
    if 'A' <= c && c <= 'Z' {
        let n: u32 = c as u32;
        let lowered: u8 = (n + 32) as u8;
        lowered as char
    } else {
        c
    }
}

proof fn lemma_head_prefix(s: Seq<char>, k: int)
    requires
        0 <= k <= s.len(),
        forall|j: int| 0 <= j < k ==> !ends_language(#[trigger] s[j]),
        k == s.len() || ends_language(s[k]),
    ensures
        locale_head(s) == s.subrange(0, k),
    decreases k,
{
    if k == 0 {
        assert(s.subrange(0, 0) =~= Seq::<char>::empty());
    } else {
        let t = s.drop_first();
        assert forall|j: int| 0 <= j < k - 1 implies !ends_language(#[trigger] t[j]) by {
            assert(t[j] == s[j + 1]);
        }
        if k < s.len() {
            assert(t[k - 1] == s[k]);
        }
        lemma_head_prefix(t, k - 1);
        assert(seq![s[0]] + t.subrange(0, k - 1) =~= s.subrange(0, k));
    }
}

/// The language the system asks for, when the program carries one.
///
/// A locale names a language and often a country, such as `ru_RU.UTF-8`
/// or `pt-BR`. The language alone decides, so a Brazilian locale takes a
/// Portuguese file. Returns `None` when nothing matches, and the caller
/// falls back to [`DEFAULT`].
pub fn system_language(locale: &str) -> (r: Option<&'static str>)
    ensures
        r is Some <==> asked_language(locale@).len() > 0 && language_codes().contains(asked_language(locale@)),
        r matches Some(code) ==> code@ == asked_language(locale@),
{
    let cs = chars_of(locale);
    let mut k: usize = 0;
    while k < cs.len() && !(cs[k] == '.' || cs[k] == '_' || cs[k] == '-')
        invariant
            k <= cs@.len(),
            forall|j: int| 0 <= j < k ==> !ends_language(#[trigger] cs@[j]),
        decreases cs.len() - k,
    {
        k += 1;
    }
    proof {
        lemma_head_prefix(cs@, k as int);
    }
    let mut head: Vec<char> = Vec::new();
    let mut i: usize = 0;
    while i < k
        invariant
            i <= k <= cs@.len(),
            head@ == lowered(cs@.subrange(0, i as int)),
        decreases k - i,
    {
        head.push(lower_char(cs[i]));
        proof {
            assert(lowered(cs@.subrange(0, i + 1)) =~= lowered(cs@.subrange(0, i as int)).push(ascii_lower(cs@[i as int])));
        }
        i += 1;
    }
    assert(head@ == asked_language(locale@));
    if head.len() == 0 {
        return None;
    }
    let all = languages();
    let mut n: usize = 0;
    while n < all.len()
        invariant
            n <= all@.len(),
            head@ == asked_language(locale@),
            head@.len() > 0,
            all@.len() == language_codes().len(),
            forall|j: int| 0 <= j < all@.len() ==> (#[trigger] all@[j]).code@ == language_codes()[j],
            forall|j: int| 0 <= j < n ==> language_codes()[j] != head@,
        decreases all.len() - n,
    {
        let here = chars_of(all[n].code);
        if same_chars(&here, &head) {
            proof {
                assert(language_codes()[n as int] == head@);
            }
            return Some(all[n].code);
        }
        n += 1;
    }
    proof {
        if language_codes().contains(head@) {
            let j = choose|j: int| 0 <= j < language_codes().len() && language_codes()[j] == head@;
            assert(language_codes()[j] == head@);
        }
    }
    None
}

} // verus!
