//! The names of scenes and of the maps in them: a name that stays inside
//! the scenes folder, a name no other folder or file holds yet, and the
//! name a folder goes by.

use vstd::prelude::*;

use crate::paths::{stem_of, extension_of, plain_name, clean_path, below, part_below, slashed, last_part, relative_part, path_extension, path_file_name, path_file_stem, path_is_absolute, path_join, path_strip_prefix};
use crate::text::{chars_of, decimal, decimal_string, push_chars, push_char, same_chars, string_of};
use vstd::string::StringExecFns;

verus! {

/// Whether a character is white space: whether it has the Unicode
/// `White_Space` property, which these code points hold.
pub open spec fn white_space(c: char) -> bool {
    let u = c as u32;
    ||| 0x09 <= u <= 0x0d
    ||| u == 0x20
    ||| u == 0x85
    ||| u == 0xa0
    ||| u == 0x1680
    ||| 0x2000 <= u <= 0x200a
    ||| u == 0x2028
    ||| u == 0x2029
    ||| u == 0x202f
    ||| u == 0x205f
    ||| u == 0x3000
}

/// Whether a character is white space, as `char::is_whitespace` answers:
/// the Unicode `White_Space` property.
pub fn is_space(c: char) -> (r: bool)
    ensures
        r == white_space(c),
{
    let u = c as u32;
    (0x09 <= u && u <= 0x0d) || u == 0x20 || u == 0x85 || u == 0xa0 || u == 0x1680 || (0x2000 <= u && u
        <= 0x200a) || u == 0x2028 || u == 0x2029 || u == 0x202f || u == 0x205f || u == 0x3000
}

/// The first place at `k` or after that holds no white space.
pub open spec fn first_solid(s: Seq<char>, k: int) -> int
    decreases s.len() - k,
{
    if k < 0 || k >= s.len() {
        s.len() as int
    } else if !white_space(s[k]) {
        k
    } else {
        first_solid(s, k + 1)
    }
}

/// One past the last place below `k` that holds no white space.
pub open spec fn last_solid(s: Seq<char>, k: int) -> int
    decreases k,
{
    if k <= 0 || k > s.len() {
        0
    } else if !white_space(s[k - 1]) {
        k
    } else {
        last_solid(s, k - 1)
    }
}

/// The text without the white space at either end.
pub open spec fn trimmed(s: Seq<char>) -> Seq<char> {
    let start = first_solid(s, 0);
    let end = last_solid(s, s.len() as int);
    if start < end { s.subrange(start, end) } else { Seq::empty() }
}

proof fn lemma_solid_bounds(s: Seq<char>, k: int)
    ensures
        0 <= k <= s.len() ==> k <= first_solid(s, k) <= s.len(),
        0 <= k <= s.len() ==> 0 <= last_solid(s, k) <= k,
    decreases s.len() - k,
{
    if 0 <= k < s.len() {
        lemma_solid_bounds(s, k + 1);
    }
    lemma_last_bounds(s, k);
}

proof fn lemma_last_bounds(s: Seq<char>, k: int)
    ensures
        0 <= k <= s.len() ==> 0 <= last_solid(s, k) <= k,
    decreases k,
{
    if 0 < k <= s.len() {
        lemma_last_bounds(s, k - 1);
    }
}

/// Where the text without white space at its ends starts and stops.
fn solid_span(cs: &Vec<char>) -> (r: (usize, usize))
    ensures
        r.0 <= cs@.len(),
        r.1 <= cs@.len(),
        r.0 == first_solid(cs@, 0),
        r.1 == last_solid(cs@, cs@.len() as int),
{
    let mut start: usize = 0;
    while start < cs.len() && is_space(cs[start])
        invariant
            start <= cs@.len(),
            first_solid(cs@, 0) == first_solid(cs@, start as int),
        decreases cs.len() - start,
    {
        start += 1;
    }
    let mut end: usize = cs.len();
    while end > 0 && is_space(cs[end - 1])
        invariant
            end <= cs@.len(),
            last_solid(cs@, cs@.len() as int) == last_solid(cs@, end as int),
        decreases end,
    {
        end -= 1;
    }
    (start, end)
}

/// The text without the white space at either end.
pub fn trim(s: &str) -> (r: String)
    ensures
        r@ == trimmed(s@),
{
    let cs = chars_of(s);
    let (start, end) = solid_span(&cs);
    let mut out = String::new();
    if start < end {
        push_chars(&mut out, &cs, start, end);
        proof {
            assert(Seq::<char>::empty() + cs@.subrange(start as int, end as int) =~= trimmed(s@));
        }
    }
    out
}

/// Whether a name can be a folder inside the scenes folder: not empty once
/// the white space at its ends goes, not one of the two dot names that
/// climb out, and with no separator that would put the scene elsewhere.
pub open spec fn scene_name_ok(name: Seq<char>) -> bool {
    let t = trimmed(name);
    &&& t.len() > 0
    &&& t != seq!['.']
    &&& t != seq!['.', '.']
    &&& !t.contains('/')
    &&& !t.contains('\\')
}

/// Whether a name can be a folder inside the scenes folder.
pub fn valid_scene_name(name: &str) -> (r: bool)
    ensures
        r == scene_name_ok(name@),
{
    let trimmed_name = trim(name);
    let t = chars_of(trimmed_name.as_str());
    assert(t@ == trimmed(name@));
    if t.len() == 0 {
        return false;
    }
    if t.len() == 1 && t[0] == '.' {
        proof {
            assert(t@ =~= seq!['.']);
        }
        return false;
    }
    if t.len() == 2 && t[0] == '.' && t[1] == '.' {
        proof {
            assert(t@ =~= seq!['.', '.']);
        }
        return false;
    }
    let mut i: usize = 0;
    while i < t.len()
        invariant
            i <= t@.len(),
            t@ == trimmed(name@),
            forall|j: int| 0 <= j < i ==> t@[j] != '/' && t@[j] != '\\',
        decreases t.len() - i,
    {
        if t[i] == '/' || t[i] == '\\' {
            proof {
                assert(t@.contains(t@[i as int]));
                assert(t@.contains('/') || t@.contains('\\'));
            }
            return false;
        }
        i += 1;
    }
    proof {
        if t@.len() == 1 {
            assert(t@ != seq!['.'] ==> t@[0] != '.');
        }
        assert(t@ != seq!['.']) by {
            if t@ == seq!['.'] {
                assert(t@[0] == '.');
            }
        }
        assert(t@ != seq!['.', '.']) by {
            if t@ == seq!['.', '.'] {
                assert(t@[0] == '.' && t@[1] == '.');
            }
        }
    }
    true
}

/// The name `wanted` with a number after it, as the scenes folder holds a
/// second scene of one name.
pub open spec fn numbered(wanted: Seq<char>, number: nat) -> Seq<char> {
    wanted + seq![' '] + decimal(number)
}

/// How many scenes or maps of one name a folder may hold.
pub const MAX_SAME_NAME: u64 = 1000;

/// Whether a list of names holds this one.
pub open spec fn names_hold(taken: Seq<String>, name: Seq<char>) -> bool {
    exists|i: int| 0 <= i < taken.len() && taken[i]@ == name
}

/// The first number from `n` up to the limit whose numbered name the list
/// does not hold.
pub open spec fn first_free_number(wanted: Seq<char>, taken: Seq<String>, n: nat) -> Option<nat>
    decreases MAX_SAME_NAME - n,
{
    if n >= MAX_SAME_NAME {
        None
    } else if !names_hold(taken, numbered(wanted, n)) {
        Some(n)
    } else {
        first_free_number(wanted, taken, n + 1)
    }
}

/// A scene name that no folder in the list uses yet: the name itself, or
/// the name with the first number from 2 that is free. A folder with a
/// thousand scenes of one name keeps the name.
pub open spec fn free_scene(wanted: Seq<char>, taken: Seq<String>) -> Seq<char> {
    if !names_hold(taken, wanted) {
        wanted
    } else {
        match first_free_number(wanted, taken, 2) {
            Some(n) => numbered(wanted, n),
            None => wanted,
        }
    }
}

/// Whether a list of names holds this one.
fn holds_name(taken: &[String], name: &Vec<char>) -> (r: bool)
    ensures
        r == names_hold(taken@, name@),
{
    let mut i: usize = 0;
    while i < taken.len()
        invariant
            i <= taken@.len(),
            forall|j: int| 0 <= j < i ==> taken@[j]@ != name@,
        decreases taken.len() - i,
    {
        let here = chars_of(taken[i].as_str());
        if same_chars(&here, name) {
            return true;
        }
        i += 1;
    }
    false
}

fn numbered_string(wanted: &str, number: u64) -> (r: String)
    ensures
        r@ == numbered(wanted@, number as nat),
{
    let mut out = wanted.to_owned();
    push_char(&mut out, ' ');
    let digits = decimal_string(number);
    out.append(digits.as_str());
    proof {
        assert(out@ =~= numbered(wanted@, number as nat));
    }
    out
}

/// The search for a free number from `n` on: a number it gives is below
/// the limit, not held, and every number from `n` up to it is held; when
/// it gives none, every number from `n` up to the limit is held.
proof fn lemma_first_free_number(wanted: Seq<char>, taken: Seq<String>, n: nat)
    ensures
        match first_free_number(wanted, taken, n) {
            Some(k) => {
                &&& n <= k < MAX_SAME_NAME
                &&& !names_hold(taken, numbered(wanted, k))
                &&& forall|m: nat| n <= m < k ==> names_hold(taken, #[trigger] numbered(wanted, m))
            },
            None => forall|m: nat| n <= m < MAX_SAME_NAME ==> names_hold(taken, #[trigger] numbered(wanted, m)),
        },
    decreases MAX_SAME_NAME - n,
{
    if n < MAX_SAME_NAME && names_hold(taken, numbered(wanted, n)) {
        lemma_first_free_number(wanted, taken, n + 1);
        assert forall|m: nat| n <= m < n + 1 implies names_hold(taken, #[trigger] numbered(wanted, m)) by {
            assert(m == n);
        }
    }
}

/// The name a new scene gets is one no folder uses, unless every name it
/// could take is used: the wanted name when the list lacks it; else the
/// wanted name with the first number from 2 that the list lacks, every
/// smaller number from 2 being taken; else, with every number up to the
/// limit taken, the wanted name.
pub proof fn lemma_free_scene_is_free(wanted: Seq<char>, taken: Seq<String>)
    ensures
        ({
            let r = free_scene(wanted, taken);
            &&& !names_hold(taken, wanted) ==> r == wanted
            &&& r != wanted ==> {
                &&& names_hold(taken, wanted)
                &&& !names_hold(taken, r)
                &&& exists|n: nat| {
                    &&& 2 <= n < MAX_SAME_NAME
                    &&& r == #[trigger] numbered(wanted, n)
                    &&& forall|m: nat| 2 <= m < n ==> names_hold(taken, #[trigger] numbered(wanted, m))
                }
            }
            &&& (names_hold(taken, wanted) && r == wanted) ==> forall|m: nat|
                2 <= m < MAX_SAME_NAME ==> names_hold(taken, #[trigger] numbered(wanted, m))
        }),
{
    lemma_first_free_number(wanted, taken, 2);
    if names_hold(taken, wanted) {
        match first_free_number(wanted, taken, 2) {
            Some(k) => {
                assert(numbered(wanted, k).len() > wanted.len());
                assert(numbered(wanted, k) != wanted);
            },
            None => {},
        }
    }
}

/// A scene name that no folder in the scenes folder uses yet.
pub fn free_scene_name(wanted: &str, taken: &[String]) -> (r: String)
    ensures
        r@ == free_scene(wanted@, taken@),
{
    let own = chars_of(wanted);
    if !holds_name(taken, &own) {
        return wanted.to_owned();
    }
    let mut number: u64 = 2;
    while number < MAX_SAME_NAME
        invariant
            2 <= number <= MAX_SAME_NAME,
            names_hold(taken@, wanted@),
            first_free_number(wanted@, taken@, 2) == first_free_number(wanted@, taken@, number as nat),
        decreases MAX_SAME_NAME - number,
    {
        let candidate = numbered_string(wanted, number);
        let chars = chars_of(candidate.as_str());
        if !holds_name(taken, &chars) {
            proof {
                assert(first_free_number(wanted@, taken@, number as nat) == Some(number as nat));
            }
            return candidate;
        }
        number += 1;
    }
    wanted.to_owned()
}

/// A name the folder of the scene goes by: its own name, or `scene` when
/// the path names no folder.
pub fn name_or_scene(file_name: Option<String>) -> (r: String)
    ensures
        match file_name {
            Some(name) => r@ == name@,
            None => r@ == "scene"@,
        },
{
    match file_name {
        Some(name) => name,
        None => "scene".to_owned(),
    }
}

/// The name of a scene, which is the name of its folder: `scene` for an
/// empty path, and the plain part after the last `/` of a path that every
/// system parts at `/` alone. Other paths take their last part by the
/// system's rules for paths.
pub fn scene_name(scene_dir: &str) -> (r: String)
    ensures
        scene_dir@.len() == 0 ==> r@ == "scene"@,
        plain_name(scene_dir@) ==> r@ == scene_dir@,
        slashed(scene_dir@) ==> r@ == last_part(scene_dir@),
{
    name_or_scene(path_file_name(scene_dir))
}

/// The title of the DM window for a scene of this name.
pub fn title_for(name: &str) -> (r: String)
    ensures
        r@ == "dmap: "@ + name@,
{
    let mut out = "dmap: ".to_owned();
    out.append(name);
    out
}

/// The title of the DM window: the program and the open scene, named as
/// [`scene_name`] names it.
pub fn window_title(scene_dir: &str) -> (r: String)
    ensures
        exists|name: Seq<char>| r@ == "dmap: "@ + name,
        scene_dir@.len() == 0 ==> r@ == "dmap: "@ + "scene"@,
        plain_name(scene_dir@) ==> r@ == "dmap: "@ + scene_dir@,
        slashed(scene_dir@) ==> r@ == "dmap: "@ + last_part(scene_dir@),
{
    let name = scene_name(scene_dir);
    title_for(name.as_str())
}

/// The path to keep: the rest below the folder when there was one, the
/// whole path when not.
pub fn rest_or_whole(rest: Option<String>, whole: &str) -> (r: String)
    ensures
        match rest {
            Some(below) => r@ == below@,
            None => r@ == whole@,
        },
{
    match rest {
        Some(below) => below,
        None => whole.to_owned(),
    }
}

/// The path to store in a project: relative when the file is inside
/// `project_dir`, otherwise as given.
///
/// The file that is the project folder itself stores as the empty path.
/// For a clean folder (plain parts joined by `/`, with or without a
/// leading `/`), a file below it stores as the parts below, and a clean
/// file elsewhere as it is. Other paths follow the system's rules for
/// paths.
pub fn relative_path(project_dir: &str, file: &str) -> (r: String)
    ensures
        file@ == project_dir@ ==> r@.len() == 0,
        below(project_dir@, file@) ==> r@ == part_below(project_dir@, file@),
        clean_path(project_dir@) && clean_path(file@) && file@ != project_dir@ && !below(project_dir@, file@)
            ==> r@ == file@,
{
    rest_or_whole(path_strip_prefix(file, project_dir), file)
}

/// How to remember a scene folder: by name when it sits in `scenes_dir`,
/// and by path when it does not.
///
/// The scenes folder itself is remembered as the empty path. For a clean
/// scenes folder, a folder below it is remembered by the parts below, and
/// a clean folder elsewhere as it is. Other paths follow the system's
/// rules for paths.
pub fn remember(scenes_dir: &str, dir: &str) -> (r: String)
    ensures
        dir@ == scenes_dir@ ==> r@.len() == 0,
        below(scenes_dir@, dir@) ==> r@ == part_below(scenes_dir@, dir@),
        clean_path(scenes_dir@) && clean_path(dir@) && dir@ != scenes_dir@ && !below(scenes_dir@, dir@) ==> r@
            == dir@,
{
    rest_or_whole(path_strip_prefix(dir, scenes_dir), dir)
}

/// The folder of a scene, by name or by path: a whole path stands as it
/// is, and a name lives in the scenes folder. For a clean scenes folder
/// and a plain name, the folder is the scenes folder, the system's
/// separator, and the name; which paths are whole depends on the system's
/// rules for paths.
pub fn scene_dir(scenes_dir: &str, scene: &str) -> (r: String)
    ensures
        plain_name(scene@) && clean_path(scenes_dir@) ==> (r@ == scenes_dir@ + seq!['/'] + scene@ || r@
            == scenes_dir@ + seq!['\\'] + scene@),
{
    if path_is_absolute(scene) {
        scene.to_owned()
    } else {
        path_join(scenes_dir, scene)
    }
}

/// The folder that holds the scenes, under the home folder.
pub const DEFAULT_SCENES: &'static str = "dmap/scenes";

/// Where the scenes live when the DM has not said otherwise: for a clean
/// home folder, the home folder, the system's separator, and
/// [`DEFAULT_SCENES`].
pub fn default_scenes_dir(home: &str) -> (r: String)
    ensures
        clean_path(home@) ==> (r@ == home@ + seq!['/'] + DEFAULT_SCENES@ || r@ == home@ + seq!['\\']
            + DEFAULT_SCENES@),
{
    proof {
        reveal_strlit("dmap/scenes");
        assert(relative_part(DEFAULT_SCENES@)) by {
            assert forall|i: int| 0 <= i < DEFAULT_SCENES@.len() implies DEFAULT_SCENES@[i] != ':' by {}
        }
    }
    path_join(home, DEFAULT_SCENES)
}

/// Whether the names of files are taken, as a caller's check answered it:
/// some text with this view got this answer.
pub open spec fn said<F: Fn(&str) -> bool>(taken: F, name: Seq<char>, answer: bool) -> bool {
    exists|s: &str| s@ == name && #[trigger] taken.ensures((s,), answer)
}

/// The name of a map with a number, as a folder holds a second map of
/// one name: the stem, a space, the number, and the extension.
pub open spec fn numbered_file(stem: Seq<char>, number: nat, suffix: Seq<char>) -> Seq<char> {
    stem + seq![' '] + decimal(number) + suffix
}

fn numbered_file_string(stem: &str, number: u64, suffix: &str) -> (r: String)
    ensures
        r@ == numbered_file(stem@, number as nat, suffix@),
{
    let mut out = stem.to_owned();
    push_char(&mut out, ' ');
    let digits = decimal_string(number);
    out.append(digits.as_str());
    out.append(suffix);
    proof {
        assert(out@ =~= numbered_file(stem@, number as nat, suffix@));
    }
    out
}

/// Whether `taken` answered yes for every numbered name from 2 up to
/// `upto`.
pub open spec fn numbered_all_taken<F: Fn(&str) -> bool>(taken: F, stem: Seq<char>, suffix: Seq<char>, upto: nat) -> bool {
    forall|m: nat| 2 <= m < upto ==> said(taken, #[trigger] numbered_file(stem, m, suffix), true)
}

/// Whether `picked` is the name a folder gives a file of this name, stem
/// and extension, as `taken` answers for each name: `name` itself when it
/// is free; else `stem`, a number from 2 and `suffix`, the first that is
/// free; else `name`, when a thousand of one name are there.
pub open spec fn picked_free<F: Fn(&str) -> bool>(
    taken: F,
    name: Seq<char>,
    stem: Seq<char>,
    suffix: Seq<char>,
    picked: Seq<char>,
) -> bool {
    ||| picked == name && said(taken, name, false)
    ||| picked == name && said(taken, name, true) && numbered_all_taken(taken, stem, suffix, MAX_SAME_NAME as nat)
    ||| said(taken, name, true) && exists|n: nat| {
        &&& 2 <= n < MAX_SAME_NAME
        &&& picked == #[trigger] numbered_file(stem, n, suffix)
        &&& said(taken, picked, false)
        &&& numbered_all_taken(taken, stem, suffix, n)
    }
}

/// A file name that nothing in a folder uses, as `taken` answers for each
/// name: `name` itself when it is free; else `stem`, a number from 2 and
/// `suffix`, the first that is free; else `name`, when a thousand of one
/// name are there.
pub fn free_name_among<F: Fn(&str) -> bool>(name: &str, stem: &str, suffix: &str, taken: F) -> (r: String)
    requires
        forall|s: &str| #[trigger] taken.requires((s,)),
    ensures
        picked_free(taken, name@, stem@, suffix@, r@),
{
    let first = taken(name);
    if !first {
        return name.to_owned();
    }
    let mut number: u64 = 2;
    while number < MAX_SAME_NAME
        invariant
            2 <= number <= MAX_SAME_NAME,
            forall|s: &str| #[trigger] taken.requires((s,)),
            said(taken, name@, true),
            numbered_all_taken(taken, stem@, suffix@, number as nat),
        decreases MAX_SAME_NAME - number,
    {
        let candidate = numbered_file_string(stem, number, suffix);
        let busy = taken(candidate.as_str());
        if !busy {
            proof {
                assert(said(taken, candidate@, false));
                let n = number as nat;
                assert(candidate@ == numbered_file(stem@, n, suffix@));
            }
            return candidate;
        }
        proof {
            assert(said(taken, numbered_file(stem@, number as nat, suffix@), true));
        }
        number += 1;
    }
    name.to_owned()
}

/// The name a map takes in a folder when `name` holds nothing: `map`.
pub fn name_or_map(part: Option<String>) -> (r: String)
    ensures
        match part {
            Some(text) => r@ == text@,
            None => r@ == "map"@,
        },
{
    match part {
        Some(text) => text,
        None => "map".to_owned(),
    }
}

/// The end a numbered name keeps: a dot and the extension, or nothing.
pub open spec fn dotted_end(extension: Option<Seq<char>>) -> Seq<char> {
    match extension {
        Some(end) => seq!['.'] + end,
        None => Seq::empty(),
    }
}

/// The end a numbered name keeps: a dot and the extension, or nothing.
pub fn dotted(extension: Option<String>) -> (r: String)
    ensures
        match extension {
            Some(end) => r@ == seq!['.'] + end@,
            None => r@ == Seq::<char>::empty(),
        },
{
    match extension {
        Some(end) => {
            let mut out = String::new();
            push_char(&mut out, '.');
            out.append(end.as_str());
            out
        },
        None => String::new(),
    }
}

/// A file name for `source` inside a scene folder that nothing else uses.
///
/// `taken` says whether a name is in the way. A different file with the
/// same name gets a number. For a path that every system parts at `/`
/// alone, the name is its last part, and the stem and the extension are
/// those of that name; other paths take them by the system's rules for
/// paths, and the contract says what holds for whichever the system gives.
pub fn free_name<F: Fn(&str) -> bool>(source: &str, taken: F) -> (r: String)
    requires
        forall|s: &str| #[trigger] taken.requires((s,)),
    ensures
        exists|name: Seq<char>, stem: Seq<char>, suffix: Seq<char>| picked_free(taken, name, stem, suffix, r@),
        slashed(source@) ==> picked_free(
            taken,
            last_part(source@),
            stem_of(last_part(source@)),
            dotted_end(extension_of(last_part(source@))),
            r@,
        ),
{
    let name = name_or_map(path_file_name(source));
    let stem = name_or_map(path_file_stem(source));
    let suffix = dotted(path_extension(source));
    free_name_among(name.as_str(), stem.as_str(), suffix.as_str(), taken)
}

} // verus!
