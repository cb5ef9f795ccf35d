//! Paths as text.
//!
//! A path is a string whose components are separated by `/`. Its last
//! component is whatever follows the last `/`; the directory is whatever
//! stands before it, that `/` included. Nothing is normalised: two paths are
//! the same only if they are the same text.

use vstd::prelude::*;
use vstd::string::*;
use crate::text::last_index_of;

verus! {

/// The view of an optional string slice.
pub open spec fn text_of(o: Option<&str>) -> Option<Seq<char>> {
    match o {
        Some(s) => Some(s@),
        None => None,
    }
}

/// The view of an optional string.
pub open spec fn string_of(o: Option<String>) -> Option<Seq<char>> {
    match o {
        Some(s) => Some(s@),
        None => None,
    }
}

/// Where the last component of `p` begins.
pub open spec fn name_start(p: Seq<char>) -> int {
    match p.index_of_last('/') {
        Some(i) => i + 1,
        None => 0,
    }
}

/// The directory part of `p`: everything up to and including the last `/`,
/// or nothing where `p` has no `/`.
pub open spec fn directory_of(p: Seq<char>) -> Seq<char> {
    p.subrange(0, name_start(p))
}

/// The last component of `p`: everything behind the last `/`.
pub open spec fn last_component(p: Seq<char>) -> Seq<char> {
    p.subrange(name_start(p), p.len() as int)
}

/// Whether `name` can name a file: it is not empty and is neither `.` nor
/// `..`.
pub open spec fn names_a_file(name: Seq<char>) -> bool {
    &&& name.len() > 0
    &&& name != seq!['.']
    &&& name != seq!['.', '.']
}

/// The file name of `p`: its last component, if that can name a file.
pub open spec fn file_name_of(p: Seq<char>) -> Option<Seq<char>> {
    if names_a_file(last_component(p)) {
        Some(last_component(p))
    } else {
        None
    }
}

/// Where the suffix of a file name begins: at its last `.`, unless the name
/// has none or has it as its first character; then the suffix is empty and
/// begins at the end.
pub open spec fn suffix_start(name: Seq<char>) -> int {
    match name.index_of_last('.') {
        Some(i) => if i > 0 {
            i
        } else {
            name.len() as int
        },
        None => name.len() as int,
    }
}

/// The stem of a file name: what stands before its suffix.
pub open spec fn stem_of(name: Seq<char>) -> Seq<char> {
    name.subrange(0, suffix_start(name))
}

/// The suffix of a file name: its last `.` and what follows, or nothing.
pub open spec fn suffix_of(name: Seq<char>) -> Seq<char> {
    name.subrange(suffix_start(name), name.len() as int)
}

/// The extension of `p`: what follows the last `.` of its file name. A path
/// without a file name has none, and neither has a file name without a `.`
/// or with its only `.` in front.
pub open spec fn extension_of(p: Seq<char>) -> Option<Seq<char>> {
    match file_name_of(p) {
        Some(name) => if suffix_start(name) < name.len() {
            Some(name.subrange(suffix_start(name) + 1, name.len() as int))
        } else {
            None
        },
        None => None,
    }
}

/// `name` put below the directory `base`: a `/` is set between them unless
/// `base` is empty or ends in one.
pub open spec fn joined(base: Seq<char>, name: Seq<char>) -> Seq<char> {
    if base.len() == 0 || base.last() == '/' {
        base + name
    } else {
        base + seq!['/'] + name
    }
}

/// `p` with its last component replaced by `name`.
pub open spec fn with_last_component(p: Seq<char>, name: Seq<char>) -> Seq<char> {
    directory_of(p) + name
}

/// The last component begins inside the path and holds no `/`; the directory
/// is empty or ends in `/`; together they make up the path.
pub proof fn lemma_split(p: Seq<char>)
    ensures
        0 <= name_start(p) <= p.len(),
        !last_component(p).contains('/'),
        directory_of(p).len() == 0 || directory_of(p).last() == '/',
        directory_of(p) + last_component(p) == p,
{
    p.index_of_last_ensures('/');
    let k = name_start(p);
    let name = last_component(p);
    if name.contains('/') {
        let i = choose|i: int| 0 <= i < name.len() && name[i] == '/';
        assert(p[k + i] == '/');
    }
    assert(directory_of(p) + last_component(p) =~= p);
}

/// A text without `/` that is set behind a directory is the last component
/// of the result, and the directory is its directory.
pub proof fn lemma_last_component_of_concat(dir: Seq<char>, name: Seq<char>)
    requires
        dir.len() == 0 || dir.last() == '/',
        !name.contains('/'),
    ensures
        name_start(dir + name) == dir.len(),
        directory_of(dir + name) == dir,
        last_component(dir + name) == name,
{
    let p = dir + name;
    p.index_of_last_ensures('/');
    match p.index_of_last('/') {
        Some(i) => {
            if i >= dir.len() {
                assert(name[i - dir.len()] == '/');
                assert(name.contains('/'));
            }
            if dir.len() > 0 {
                assert(p[dir.len() - 1] == '/');
            }
        },
        None => {
            if dir.len() > 0 {
                assert(p[dir.len() - 1] == '/');
                assert(p.contains('/'));
            }
        },
    }
    assert(directory_of(p) =~= dir);
    assert(last_component(p) =~= name);
}

/// A text without `/` that is put below a directory is the last component of
/// the result.
pub proof fn lemma_last_component_of_joined(base: Seq<char>, name: Seq<char>)
    requires
        !name.contains('/'),
    ensures
        last_component(joined(base, name)) == name,
{
    if base.len() == 0 || base.last() == '/' {
        lemma_last_component_of_concat(base, name);
    } else {
        let dir = base + seq!['/'];
        assert(dir.last() == '/');
        lemma_last_component_of_concat(dir, name);
    }
}

/// The stem and the suffix of a name make up the name, and the stem of a
/// name that is not empty is not empty.
pub proof fn lemma_stem_suffix(name: Seq<char>)
    ensures
        0 <= suffix_start(name) <= name.len(),
        stem_of(name) + suffix_of(name) == name,
        name.len() > 0 ==> stem_of(name).len() > 0,
{
    name.index_of_last_ensures('.');
    assert(stem_of(name) + suffix_of(name) =~= name);
}

/// Where the last component of `path` begins.
fn find_name_start(path: &str) -> (k: usize)
    ensures
        k == name_start(path@),
        k <= path@.len(),
{
    proof {
        lemma_split(path@);
    }
    match last_index_of(path, '/') {
        Some(i) => i + 1,
        None => 0,
    }
}

/// Where the suffix of `name` begins.
fn find_suffix_start(name: &str) -> (k: usize)
    ensures
        k == suffix_start(name@),
        k <= name@.len(),
{
    proof {
        lemma_stem_suffix(name@);
    }
    let len = name.unicode_len();
    match last_index_of(name, '.') {
        Some(i) => if i > 0 {
            i
        } else {
            len
        },
        None => len,
    }
}

/// The directory part of `path`, its last `/` included.
pub fn directory(path: &str) -> (dir: &str)
    ensures
        dir@ == directory_of(path@),
{
    let k = find_name_start(path);
    path.substring_char(0, k)
}

/// The last component of `path`.
pub fn final_component(path: &str) -> (name: &str)
    ensures
        name@ == last_component(path@),
{
    let k = find_name_start(path);
    let len = path.unicode_len();
    path.substring_char(k, len)
}

/// Splits a file name into its stem and its suffix.
pub fn split_name(name: &str) -> (parts: (&str, &str))
    ensures
        parts.0@ == stem_of(name@),
        parts.1@ == suffix_of(name@),
{
    let k = find_suffix_start(name);
    let len = name.unicode_len();
    (name.substring_char(0, k), name.substring_char(k, len))
}

/// Whether `name` is not empty and neither `.` nor `..`.
fn can_name_a_file(name: &str) -> (b: bool)
    ensures
        b == names_a_file(name@),
{
    let len = name.unicode_len();
    if len == 0 {
        false
    } else if len == 1 {
        let only = name.get_char(0);
        assert(name@ =~= seq![only]);
        assert(seq!['.'][0] == '.');
        only != '.'
    } else if len == 2 {
        let first = name.get_char(0);
        let second = name.get_char(1);
        assert(name@ =~= seq![first, second]);
        assert(seq!['.', '.'][0] == '.' && seq!['.', '.'][1] == '.');
        !(first == '.' && second == '.')
    } else {
        assert(seq!['.'].len() == 1);
        assert(seq!['.', '.'].len() == 2);
        true
    }
}

/// The file name of `path`: its last component, unless that is empty, `.`
/// or `..`.
pub fn file_name(path: &str) -> (name: Option<&str>)
    ensures
        text_of(name) == file_name_of(path@),
{
    let name = final_component(path);
    if can_name_a_file(name) {
        Some(name)
    } else {
        None
    }
}

/// The extension of `path`: what follows the last `.` of its file name.
pub fn extension(path: &str) -> (ext: Option<&str>)
    ensures
        text_of(ext) == extension_of(path@),
{
    match file_name(path) {
        Some(name) => {
            let k = find_suffix_start(name);
            let len = name.unicode_len();
            if k < len {
                Some(name.substring_char(k + 1, len))
            } else {
                None
            }
        },
        None => None,
    }
}

/// Puts `name` below the directory `base`.
pub fn join(base: &str, name: &str) -> (path: String)
    ensures
        path@ == joined(base@, name@),
{
    let len = base.unicode_len();
    let mut path = String::from_str(base);
    if len > 0 && base.get_char(len - 1) != '/' {
        proof {
            reveal_strlit("/");
        }
        path.append("/");
        assert(path@ =~= base@ + seq!['/']);
    }
    path.append(name);
    path
}

} // verus!
