//! Every word the window shows the DM, and the small machine that puts a
//! number or a name into a line of text.
//!
//! The program carries English, and a line says where a value goes with a
//! name in braces, such as `{count} min ago`. A translation moves the
//! place, and the value follows it.

use vstd::prelude::*;
use vstd::string::StrSliceExecFns;
use vstd::string::StringExecFns;

verus! {

/// Appends one character to a string.
///
/// Calls `String::push`, which its documentation says appends the given
/// `char` to the end of the string; the contract says that and no more.
#[verifier::external_body]
pub(crate) fn push_char(out: &mut String, c: char)
    ensures
        final(out)@ == old(out)@.push(c),
{
    out.push(c);
}

/// The characters of a string, in order.
pub fn chars_of(s: &str) -> (r: Vec<char>)
    ensures
        r@ == s@,
{
    let n = s.unicode_len();
    let mut out: Vec<char> = Vec::new();
    let mut i: usize = 0;
    while i < n
        invariant
            n == s@.len(),
            i <= n,
            out@ == s@.subrange(0, i as int),
        decreases n - i,
    {
        out.push(s.get_char(i));
        proof {
            assert(s@.subrange(0, i + 1) == s@.subrange(0, i as int).push(s@[i as int]));
        }
        i += 1;
    }
    proof {
        assert(s@.subrange(0, n as int) =~= s@);
    }
    out
}

/// Appends the characters of `cs` from `from` up to `to`.
pub(crate) fn push_chars(out: &mut String, cs: &Vec<char>, from: usize, to: usize)
    requires
        from <= to <= cs@.len(),
    ensures
        final(out)@ == old(out)@ + cs@.subrange(from as int, to as int),
{
    let ghost start = out@;
    let mut i = from;
    while i < to
        invariant
            from <= i <= to <= cs@.len(),
            out@ == start + cs@.subrange(from as int, i as int),
        decreases to - i,
    {
        push_char(out, cs[i]);
        proof {
            assert(cs@.subrange(from as int, i + 1) == cs@.subrange(from as int, i as int).push(cs@[i as int]));
        }
        i += 1;
    }
}

/// A string that holds exactly these characters.
pub fn string_of(cs: &Vec<char>) -> (r: String)
    ensures
        r@ == cs@,
{
    let mut out = String::new();
    push_chars(&mut out, cs, 0, cs.len());
    proof {
        assert(cs@.subrange(0, cs@.len() as int) =~= cs@);
    }
    out
}

/// The digit of a number from 0 to 9.
pub open spec fn digit(d: nat) -> char {
    if d == 0 { '0' }
    else if d == 1 { '1' }
    else if d == 2 { '2' }
    else if d == 3 { '3' }
    else if d == 4 { '4' }
    else if d == 5 { '5' }
    else if d == 6 { '6' }
    else if d == 7 { '7' }
    else if d == 8 { '8' }
    else { '9' }
}

/// A number as a person writes it: decimal digits, the first one not zero
/// unless the number is zero.
pub open spec fn decimal(n: nat) -> Seq<char>
    decreases n,
{
    if n < 10 {
        seq![digit(n)]
    } else {
        decimal(n / 10).push(digit(n % 10))
    }
}

fn digit_of(d: u64) -> (c: char)
    requires
        d < 10,
    ensures
        c == digit(d as nat),
{
    if d == 0 { '0' }
    else if d == 1 { '1' }
    else if d == 2 { '2' }
    else if d == 3 { '3' }
    else if d == 4 { '4' }
    else if d == 5 { '5' }
    else if d == 6 { '6' }
    else if d == 7 { '7' }
    else if d == 8 { '8' }
    else { '9' }
}

/// Appends a number in decimal digits.
pub fn push_decimal(out: &mut String, n: u64)
    ensures
        final(out)@ == old(out)@ + decimal(n as nat),
    decreases n,
{
    if n >= 10 {
        push_decimal(out, n / 10);
    }
    push_char(out, digit_of(n % 10));
    proof {
        if n < 10 {
            assert(decimal(n as nat) == seq![digit(n as nat)]);
        }
    }
}

/// A number in decimal digits.
pub fn decimal_string(n: u64) -> (r: String)
    ensures
        r@ == decimal(n as nat),
{
    let mut out = String::new();
    push_decimal(&mut out, n);
    proof {
        assert(Seq::<char>::empty() + decimal(n as nat) =~= decimal(n as nat));
    }
    out
}

/// The first place at `k` or after where `c` stands in `s`.
pub open spec fn find_char(s: Seq<char>, c: char, k: int) -> Option<int>
    decreases s.len() - k,
{
    if k < 0 || k >= s.len() {
        None
    } else if s[k] == c {
        Some(k)
    } else {
        find_char(s, c, k + 1)
    }
}

pub proof fn lemma_find_char(s: Seq<char>, c: char, k: int)
    ensures
        find_char(s, c, k) matches Some(p) ==> 0 <= k <= p < s.len() && s[p] == c,
        find_char(s, c, k) matches Some(p) ==> forall|j: int| k <= j < p ==> s[j] != c,
        find_char(s, c, k) is None ==> forall|j: int| 0 <= k <= j < s.len() ==> s[j] != c,
    decreases s.len() - k,
{
    if 0 <= k < s.len() && s[k] != c {
        lemma_find_char(s, c, k + 1);
    }
}

/// The value of the first place of this name among `args`.
pub open spec fn lookup(args: Seq<(Seq<char>, Seq<char>)>, name: Seq<char>) -> Option<Seq<char>> {
    if exists|i: int| 0 <= i < args.len() && args[i].0 == name {
        let i = choose|i: int| 0 <= i < args.len() && args[i].0 == name && forall|j: int| 0 <= j < i ==> args[j].0 != name;
        Some(args[i].1)
    } else {
        None
    }
}

/// The template from place `k` on, with each place in braces that `args`
/// names holding its value. A place no one names stays as it stands, and
/// a brace with no partner is text.
pub open spec fn filled_from(t: Seq<char>, args: Seq<(Seq<char>, Seq<char>)>, k: int) -> Seq<char>
    decreases t.len() - k,
{
    if k < 0 || k > t.len() {
        Seq::empty()
    } else {
        match find_char(t, '{', k) {
            None => t.subrange(k, t.len() as int),
            Some(open) => match find_char(t, '}', open) {
                None => t.subrange(k, t.len() as int),
                Some(close) => {
                    proof {
                        lemma_find_char(t, '{', k);
                        lemma_find_char(t, '}', open);
                    }
                    let head = t.subrange(k, open);
                    let value = match lookup(args, t.subrange(open + 1, close)) {
                        Some(value) => value,
                        None => t.subrange(open, close + 1),
                    };
                    head + value + filled_from(t, args, close + 1)
                },
            },
        }
    }
}

/// The template with each place in braces that `args` names holding its
/// value.
pub open spec fn filled(t: Seq<char>, args: Seq<(Seq<char>, Seq<char>)>) -> Seq<char> {
    filled_from(t, args, 0)
}

/// The names and values of a list of places, as mathematical values.
pub open spec fn args_view(args: Seq<(&str, &str)>) -> Seq<(Seq<char>, Seq<char>)> {
    Seq::new(args.len(), |i: int| (args[i].0@, args[i].1@))
}

pub(crate) fn find_in_chars(cs: &Vec<char>, c: char, k: usize) -> (r: Option<usize>)
    requires
        k <= cs@.len(),
    ensures
        match r {
            Some(p) => find_char(cs@, c, k as int) == Some(p as int),
            None => find_char(cs@, c, k as int) is None,
        },
{
    let mut i = k;
    while i < cs.len()
        invariant
            k <= i <= cs@.len(),
            find_char(cs@, c, k as int) == find_char(cs@, c, i as int),
        decreases cs.len() - i,
    {
        if cs[i] == c {
            return Some(i);
        }
        i += 1;
    }
    None
}

/// Whether the characters of `cs` from `from` up to `to` spell `word`.
pub(crate) fn spells(cs: &Vec<char>, from: usize, to: usize, word: &Vec<char>) -> (r: bool)
    requires
        from <= to <= cs@.len(),
    ensures
        r == (cs@.subrange(from as int, to as int) == word@),
{
    if to - from != word.len() {
        return false;
    }
    let mut i: usize = 0;
    while i < word.len()
        invariant
            to - from == word@.len(),
            from <= to <= cs@.len(),
            i <= word@.len(),
            forall|j: int| 0 <= j < i ==> cs@[from + j] == word@[j],
        decreases word.len() - i,
    {
        if cs[from + i] != word[i] {
            proof {
                assert(cs@.subrange(from as int, to as int)[i as int] != word@[i as int]);
            }
            return false;
        }
        i += 1;
    }
    proof {
        assert(cs@.subrange(from as int, to as int) =~= word@);
    }
    true
}

fn find_arg(args: &[(&str, &str)], cs: &Vec<char>, from: usize, to: usize) -> (r: Option<usize>)
    requires
        from <= to <= cs@.len(),
    ensures
        r matches Some(i) ==> i < args@.len(),
        match r {
            Some(i) => lookup(args_view(args@), cs@.subrange(from as int, to as int)) == Some(args@[i as int].1@),
            None => lookup(args_view(args@), cs@.subrange(from as int, to as int)) is None,
        },
{
    let ghost name = cs@.subrange(from as int, to as int);
    let ghost view = args_view(args@);
    let mut i: usize = 0;
    while i < args.len()
        invariant
            i <= args@.len(),
            view == args_view(args@),
            name == cs@.subrange(from as int, to as int),
            from <= to <= cs@.len(),
            forall|j: int| 0 <= j < i ==> view[j].0 != name,
        decreases args.len() - i,
    {
        let (key, _) = args[i];
        let word = chars_of(key);
        if spells(cs, from, to, &word) {
            proof {
                assert(view[i as int].0 == name);
                let c = choose|c: int| 0 <= c < view.len() && view[c].0 == name && forall|j: int| 0 <= j < c ==> view[j].0 != name;
                assert(c == i as int);
            }
            return Some(i);
        }
        i += 1;
    }
    None
}

/// Puts the values in a string in the places the language gave them.
///
/// A place is a name in braces, such as `{count}`. A name the caller does
/// not know is left as it stands, so a broken translation shows its own
/// mistake instead of losing the rest of the line.
pub fn fill(template: &str, args: &[(&str, &str)]) -> (r: String)
    ensures
        r@ == filled(template@, args_view(args@)),
{
    let t = chars_of(template);
    let ghost view = args_view(args@);
    let mut out = String::new();
    let mut k: usize = 0;
    loop
        invariant
            k <= t@.len(),
            t@ == template@,
            view == args_view(args@),
            filled_from(t@, view, 0) == out@ + filled_from(t@, view, k as int),
        decreases t@.len() - k,
    {
        let open = match find_in_chars(&t, '{', k) {
            Some(open) => open,
            None => {
                push_chars(&mut out, &t, k, t.len());
                return out;
            },
        };
        proof {
            lemma_find_char(t@, '{', k as int);
        }
        let close = match find_in_chars(&t, '}', open) {
            Some(close) => close,
            None => {
                push_chars(&mut out, &t, k, t.len());
                return out;
            },
        };
        proof {
            lemma_find_char(t@, '}', open as int);
        }
        let n = t.len();
        assert(close < n);
        let ghost before = out@;
        push_chars(&mut out, &t, k, open);
        match find_arg(args, &t, open + 1, close) {
            Some(i) => {
                let (_, value) = args[i];
                out.append(value);
            },
            None => {
                push_chars(&mut out, &t, open, close + 1);
            },
        }
        proof {
            let head = t@.subrange(k as int, open as int);
            let value = match lookup(view, t@.subrange(open + 1, close as int)) {
                Some(value) => value,
                None => t@.subrange(open as int, close + 1),
            };
            assert(out@ == before + head + value);
            assert(filled_from(t@, view, k as int) == head + value + filled_from(t@, view, close + 1));
            assert(before + (head + value + filled_from(t@, view, close + 1)) =~= out@ + filled_from(t@, view, close + 1));
        }
        k = close + 1;
    }
}

/// Whether two runs of characters are the same.
pub(crate) fn same_chars(a: &Vec<char>, b: &Vec<char>) -> (r: bool)
    ensures
        r == (a@ == b@),
{
    if a.len() != b.len() {
        return false;
    }
    let mut i: usize = 0;
    while i < a.len()
        invariant
            i <= a@.len() == b@.len(),
            forall|j: int| 0 <= j < i ==> a@[j] == b@[j],
        decreases a.len() - i,
    {
        if a[i] != b[i] {
            return false;
        }
        i += 1;
    }
    proof {
        assert(a@ =~= b@);
    }
    true
}

} // verus!
