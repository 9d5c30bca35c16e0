//! The few things the program asks of a path on disk.
//!
//! A path is text here, as the operating system writes it. What a part of
//! a path is depends on the system the program runs on: a backslash parts
//! the folders on Windows and not on Linux, and Windows reads drives and
//! prefixes that Linux does not. So these calls promise what holds on every
//! system, for paths made of plain parts, and the logic that uses one takes
//! any other answer as it comes.

use vstd::prelude::*;

verus! {

/// A path of one plain part: not empty, not `.` or `..`, and with no `/`,
/// `\` or `:` in it, so that no system reads a separator, a drive or a
/// prefix in it.
pub open spec fn plain_name(s: Seq<char>) -> bool {
    &&& s.len() > 0
    &&& s != seq!['.']
    &&& s != seq!['.', '.']
    &&& forall|i: int| 0 <= i < s.len() ==> s[i] != '/' && s[i] != '\\' && s[i] != ':'
}

/// The last place before `k` where `c` stands in `s`.
pub open spec fn last_at(s: Seq<char>, c: char, k: int) -> Option<int>
    decreases k,
{
    if k <= 0 || k > s.len() {
        None
    } else if s[k - 1] == c {
        Some(k - 1)
    } else {
        last_at(s, c, k - 1)
    }
}

/// The part of a path after its last `/`, or the whole path.
pub open spec fn last_part(s: Seq<char>) -> Seq<char> {
    match last_at(s, '/', s.len() as int) {
        Some(j) => s.subrange(j + 1, s.len() as int),
        None => s,
    }
}

/// A path that every system parts at `/` alone and whose last part is
/// plain: no `\` in it, no leading `//`, and a plain part after its last
/// `/`.
pub open spec fn slashed(s: Seq<char>) -> bool {
    &&& forall|i: int| 0 <= i < s.len() ==> s[i] != '\\'
    &&& !(s.len() >= 2 && s[0] == '/' && s[1] == '/')
    &&& plain_name(last_part(s))
}

/// A relative path that no system reads a root, a drive or a prefix in:
/// not empty, not starting with `/` or `\`, and with no `:` in it.
pub open spec fn relative_part(s: Seq<char>) -> bool {
    &&& s.len() > 0
    &&& s[0] != '/'
    &&& s[0] != '\\'
    &&& forall|i: int| 0 <= i < s.len() ==> s[i] != ':'
}

/// Plain parts joined by single `/`s: at least one part, no empty part,
/// and no `/` at either end.
pub open spec fn clean_parts(s: Seq<char>) -> bool
    decreases s.len(),
{
    match last_at(s, '/', s.len() as int) {
        None => plain_name(s),
        Some(j) => 0 <= j < s.len() && plain_name(s.subrange(j + 1, s.len() as int)) && clean_parts(
            s.subrange(0, j),
        ),
    }
}

/// A path that every system parts into the same components: plain parts
/// joined by single `/`s, with or without one `/` before them, and no `\`
/// or `:` anywhere.
pub open spec fn clean_path(s: Seq<char>) -> bool {
    if s.len() > 0 && s[0] == '/' {
        clean_parts(s.subrange(1, s.len() as int))
    } else {
        clean_parts(s)
    }
}

/// The part of `path` after `base` and one `/`.
pub open spec fn part_below(base: Seq<char>, path: Seq<char>) -> Seq<char> {
    path.subrange(base.len() as int + 1, path.len() as int)
}

/// Whether `path` is a clean `base`, one `/`, and more plain parts.
pub open spec fn below(base: Seq<char>, path: Seq<char>) -> bool {
    &&& clean_path(base)
    &&& path.len() > base.len() + 1
    &&& path.subrange(0, base.len() as int) == base
    &&& path[base.len() as int] == '/'
    &&& clean_parts(part_below(base, path))
}

/// The stem of a file name, as `Path::file_stem` documents it: the name
/// before its last `.`, or the whole name when it holds no `.` or only a
/// leading one.
pub open spec fn stem_of(name: Seq<char>) -> Seq<char> {
    match last_at(name, '.', name.len() as int) {
        Some(p) => if p > 0 { name.subrange(0, p) } else { name },
        None => name,
    }
}

/// The extension of a file name, as `Path::extension` documents it: the
/// name after its last `.`, or none when it holds no `.` or only a leading
/// one.
pub open spec fn extension_of(name: Seq<char>) -> Option<Seq<char>> {
    match last_at(name, '.', name.len() as int) {
        Some(p) => if p > 0 { Some(name.subrange(p + 1, name.len() as int)) } else { None },
        None => None,
    }
}

/// The last part of a path, the name of the file or folder.
///
/// Calls `Path::file_name`, which gives the final component of the path,
/// and `None` when there is none. The contract states what holds on every
/// system: an empty path has no final component, and a path that every
/// system parts at `/` alone ends in the plain part after its last `/`.
#[verifier::external_body]
pub fn path_file_name(path: &str) -> (r: Option<String>)
    ensures
        path@.len() == 0 ==> r is None,
        plain_name(path@) ==> r is Some && r->0@ == path@,
        slashed(path@) ==> r is Some && r->0@ == last_part(path@),
{
    std::path::Path::new(path).file_name().map(|name| name.to_string_lossy().into_owned())
}

/// The name of the file without its last extension.
///
/// Calls `Path::file_stem`, which documents its answer on the file name:
/// the part before the last `.`, or the whole name when it holds no `.` or
/// only a leading one. The contract states it for the paths whose file
/// name holds on every system.
#[verifier::external_body]
pub fn path_file_stem(path: &str) -> (r: Option<String>)
    ensures
        slashed(path@) ==> r is Some && r->0@ == stem_of(last_part(path@)),
{
    std::path::Path::new(path).file_stem().map(|stem| stem.to_string_lossy().into_owned())
}

/// The last extension of the file name, without its dot.
///
/// Calls `Path::extension`, which documents its answer on the file name:
/// the part after the last `.`, and none when the name holds no `.` or
/// only a leading one. The contract states it for the paths whose file
/// name holds on every system.
#[verifier::external_body]
pub fn path_extension(path: &str) -> (r: Option<String>)
    ensures
        slashed(path@) && extension_of(last_part(path@)) is None ==> r is None,
        slashed(path@) && extension_of(last_part(path@)) is Some
            ==> r is Some && r->0@ == extension_of(last_part(path@))->0,
{
    std::path::Path::new(path).extension().map(|end| end.to_string_lossy().into_owned())
}

/// A path with another part after it.
///
/// Calls `Path::join`, which adjoins a relative path to the base with the
/// system's separator. The contract states what holds on every system for
/// a clean base and a part with no root, drive or prefix: the base, one
/// separator, `/` or `\`, and the part.
#[verifier::external_body]
pub fn path_join(base: &str, part: &str) -> (r: String)
    ensures
        clean_path(base@) && relative_part(part@) ==> (r@ == base@ + seq!['/'] + part@ || r@ == base@
            + seq!['\\'] + part@),
{
    std::path::Path::new(base).join(part).to_string_lossy().into_owned()
}

/// The rest of a path below `base`, when `base` is where it starts.
///
/// Calls `Path::strip_prefix`, which gives the path that, joined onto
/// `base`, yields `path`, and fails when `base` is not where `path`
/// starts, part for part. Every system parts a clean path alike, so the
/// contract states what holds on every system: a path stripped of itself
/// leaves the empty path; a clean base followed by `/` and more plain parts
/// leaves those parts; and a clean path that is neither the base nor below
/// it is not below it.
#[verifier::external_body]
pub fn path_strip_prefix(path: &str, base: &str) -> (r: Option<String>)
    ensures
        path@ == base@ ==> r is Some && r->0@.len() == 0,
        below(base@, path@) ==> r is Some && r->0@ == part_below(base@, path@),
        clean_path(base@) && clean_path(path@) && path@ != base@ && !below(base@, path@) ==> r is None,
{
    std::path::Path::new(path)
        .strip_prefix(base)
        .ok()
        .map(|rest| rest.to_string_lossy().into_owned())
}

/// Whether a path starts at the root of the system.
///
/// Calls `Path::is_absolute`. A plain name has no root and no drive on any
/// system, so it is not absolute; other paths depend on the system.
#[verifier::external_body]
pub fn path_is_absolute(path: &str) -> (r: bool)
    ensures
        plain_name(path@) ==> !r,
{
    std::path::Path::new(path).is_absolute()
}

} // verus!
