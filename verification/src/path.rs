//! Relative paths, written with `/` between their components.

use vstd::prelude::*;
use crate::text::{chars_of, find_last, last_index_of, push_range, same_text, string_of};

verus! {

/// A path is relative when no separator begins it and none follows
/// another: it is read from a directory on, one component after the other.
/// A component may be `.` or `..`, so nothing is said of where the path
/// leads.
pub open spec fn is_relative(path: Seq<char>) -> bool {
    forall|i: int|
        0 <= i < path.len() && #[trigger] path[i] == '/' ==> i > 0 && path[i - 1] != '/'
}

/// Whether `path` is relative.
pub fn check_relative(path: &str) -> (ok: bool)
    ensures
        ok == is_relative(path@),
{
    let chars = chars_of(path);
    let mut i: usize = 0;
    while i < chars.len()
        invariant
            i <= chars.len(),
            chars@ == path@,
            forall|j: int|
                0 <= j < i && #[trigger] chars@[j] == '/' ==> j > 0 && chars@[j - 1] != '/',
        decreases chars.len() - i,
    {
        if chars[i] == '/' && (i == 0 || chars[i - 1] == '/') {
            return false;
        }
        i += 1;
    }
    true
}

/// The last component of `path`: what stands behind its last separator.
pub open spec fn file_name(path: Seq<char>) -> Seq<char> {
    match last_index_of(path, '/') {
        Some(at) => path.skip(at + 1),
        None => path,
    }
}

/// The last component of `path`.
pub fn file_name_of(path: &str) -> (name: String)
    ensures
        name@ == file_name(path@),
{
    let chars = chars_of(path);
    match find_last(&chars, '/') {
        Some(at) => {
            let mut name: Vec<char> = Vec::new();
            push_range(&mut name, &chars, at + 1, chars.len());
            string_of(&name)
        },
        None => string_of(&chars),
    }
}

/// Whether `path` is `dir` or lies below it.
pub open spec fn is_within(path: Seq<char>, dir: Seq<char>) -> bool {
    ||| path == dir
    ||| dir.len() < path.len() && path.take(dir.len() as int) == dir && path[dir.len() as int]
        == '/'
}

/// Whether `path` is `dir` or lies below it.
pub fn within(path: &str, dir: &str) -> (inside: bool)
    ensures
        inside == is_within(path@, dir@),
{
    let p = chars_of(path);
    let d = chars_of(dir);
    if p.len() < d.len() {
        return false;
    }
    let mut i: usize = 0;
    while i < d.len()
        invariant
            i <= d.len() <= p.len(),
            p@ == path@,
            d@ == dir@,
            p@.take(i as int) == d@.take(i as int),
        decreases d.len() - i,
    {
        if p[i] != d[i] {
            return false;
        }
        i += 1;
    }
    assert(d@.take(d.len() as int) =~= d@);
    if p.len() == d.len() {
        assert(p@.take(p.len() as int) =~= p@);
        true
    } else {
        p[d.len()] == '/'
    }
}

/// Whether a file of this name configures the run: the name of one of the
/// two files of rules. Such a file is never part of what is flattened.
pub open spec fn is_reserved_name(file_name: Seq<char>) -> bool {
    file_name == ".gitignore"@ || file_name == ".flattenignore"@
}

/// Whether a file of this name is left out because it configures the run.
pub fn should_skip_file(file_name: &str) -> (skip: bool)
    ensures
        skip == is_reserved_name(file_name@),
{
    same_text(file_name, ".gitignore") || same_text(file_name, ".flattenignore")
}

} // verus!
