//! From a relative path to a name in the flat directory.
//!
//! A relative path is written with `/` between its components. Its flat name
//! is the path with every `/` turned into `_`; a separator that begins the
//! path leaves nothing. Where that name is taken, a number is put behind its
//! stem.

use vstd::prelude::*;
use crate::decimal::{decimal, lemma_decimal_injective, lemma_decimal_nonempty, push_decimal};
use crate::seen::SeenNames;
use crate::text::{
    chars_of,
    find_last,
    last_index_of,
    lemma_last_index_of,
    push_range,
    string_of,
};

verus! {

/// `path` with an underscore in place of every separator.
pub open spec fn replace_separators(path: Seq<char>) -> Seq<char> {
    path.map_values(|c: char| if c == '/' { '_' } else { c })
}

/// `path` without the separators it begins with.
pub open spec fn strip_leading_separators(path: Seq<char>) -> Seq<char>
    decreases path.len(),
{
    if path.len() > 0 && path[0] == '/' {
        strip_leading_separators(path.drop_first())
    } else {
        path
    }
}

/// The flat name that the file at `relative` gets when that name is free:
/// the path with an underscore for every separator, but for separators that
/// begin the path, which leave nothing. An underscore of the file's own
/// stays where it is.
pub open spec fn candidate_name(relative: Seq<char>) -> Seq<char> {
    replace_separators(strip_leading_separators(relative))
}

/// A candidate name holds no separator.
pub proof fn lemma_candidate_is_flat(relative: Seq<char>)
    ensures
        !candidate_name(relative).contains('/'),
{
}

/// A path that no separator begins is taken whole: its candidate name is
/// the path with an underscore for every separator.
pub proof fn lemma_relative_path_is_taken_whole(relative: Seq<char>)
    requires
        relative.len() > 0 ==> relative[0] != '/',
    ensures
        candidate_name(relative) == replace_separators(relative),
{
}

/// A path of one component is its own candidate name: a file at the root
/// keeps its name, underscores and all.
pub proof fn lemma_plain_name_is_kept(relative: Seq<char>)
    requires
        !relative.contains('/'),
    ensures
        candidate_name(relative) == relative,
{
}

/// The flat name that the file at `relative` gets when that name is free.
pub fn flat_candidate(relative: &str) -> (name: String)
    ensures
        name@ == candidate_name(relative@),
{
    string_of(&candidate_chars(relative))
}

fn candidate_chars(relative: &str) -> (name: Vec<char>)
    ensures
        name@ == candidate_name(relative@),
{
    let path = chars_of(relative);
    let mut start: usize = 0;
    assert(path@.skip(0) =~= path@);
    while start < path.len() && path[start] == '/'
        invariant
            start <= path.len(),
            path@ == relative@,
            strip_leading_separators(path@) == strip_leading_separators(path@.skip(start as int)),
        decreases path.len() - start,
    {
        assert(path@.skip(start as int).drop_first() =~= path@.skip(start + 1));
        start += 1;
    }
    let mut name: Vec<char> = Vec::new();
    let mut i: usize = start;
    while i < path.len()
        invariant
            start <= i <= path.len(),
            name@ == replace_separators(path@.subrange(start as int, i as int)),
        decreases path.len() - i,
    {
        let c = path[i];
        name.push(if c == '/' { '_' } else { c });
        i += 1;
    }
    name
}

/// Where the last dot of `name` stands, if it has one.
pub open spec fn last_dot(name: Seq<char>) -> Option<int> {
    last_index_of(name, '.')
}

/// What stands before the last dot of `name`; all of it where it has none.
pub open spec fn stem(name: Seq<char>) -> Seq<char> {
    match last_dot(name) {
        Some(d) => name.take(d),
        None => name,
    }
}

/// What stands behind the last dot of `name`; nothing where it has none.
pub open spec fn extension(name: Seq<char>) -> Seq<char> {
    match last_dot(name) {
        Some(d) => name.skip(d + 1),
        None => Seq::empty(),
    }
}

/// The `n`-th substitute for a name that is taken: the stem, an underscore
/// and `n`, then a dot and the extension unless that is empty.
pub open spec fn numbered(name: Seq<char>, n: nat) -> Seq<char> {
    let tail = if extension(name).len() > 0 {
        seq!['.'] + extension(name)
    } else {
        Seq::empty()
    };
    stem(name) + seq!['_'] + decimal(n) + tail
}

/// `n` is the first number, from 1 on, whose substitute for `name` is not
/// among `seen`.
pub open spec fn is_first_free(name: Seq<char>, seen: Seq<Seq<char>>, n: nat) -> bool {
    &&& n >= 1
    &&& !seen.contains(numbered(name, n))
    &&& forall|k: nat| 1 <= k < n ==> seen.contains(#[trigger] numbered(name, k))
}

/// The first number, from 1 on, whose substitute for `name` is not among
/// `seen`.
pub open spec fn first_free(name: Seq<char>, seen: Seq<Seq<char>>) -> nat {
    choose|n: nat| is_first_free(name, seen, n)
}

/// The name under which a file with the candidate name `name` is stored
/// when the names in `seen` are taken: `name` itself if it is free, else its
/// first free substitute.
pub open spec fn assigned_name(name: Seq<char>, seen: Seq<Seq<char>>) -> Seq<char> {
    if !seen.contains(name) {
        name
    } else {
        numbered(name, first_free(name, seen))
    }
}

/// Every substitute is longer than the name it stands for.
pub proof fn lemma_numbered_is_longer(name: Seq<char>, n: nat)
    ensures
        numbered(name, n).len() > name.len(),
{
    lemma_last_index_of(name, '.');
    lemma_decimal_nonempty(n);
}

/// Different numbers give different substitutes.
pub proof fn lemma_numbered_injective(name: Seq<char>, a: nat, b: nat)
    requires
        numbered(name, a) == numbered(name, b),
    ensures
        a == b,
{
    let head = stem(name) + seq!['_'];
    let tail = if extension(name).len() > 0 {
        seq!['.'] + extension(name)
    } else {
        Seq::empty()
    };
    let da = decimal(a);
    let db = decimal(b);
    assert(numbered(name, a).len() == head.len() + da.len() + tail.len());
    assert(numbered(name, b).len() == head.len() + db.len() + tail.len());
    assert forall|i: int| 0 <= i < da.len() implies da[i] == db[i] by {
        assert(numbered(name, a)[head.len() + i] == da[i]);
        assert(numbered(name, b)[head.len() + i] == db[i]);
    }
    assert(da =~= db);
    lemma_decimal_injective(a, b);
}

/// At most one number is the first free one.
pub proof fn lemma_first_free_unique(name: Seq<char>, seen: Seq<Seq<char>>, a: nat, b: nat)
    requires
        is_first_free(name, seen, a),
        is_first_free(name, seen, b),
    ensures
        a == b,
{
}

/// A name that is taken has a first free substitute, and its number is at
/// most the number of names taken: the search for it ends.
pub proof fn lemma_first_free_exists(name: Seq<char>, seen: Seq<Seq<char>>)
    requires
        seen.contains(name),
    ensures
        is_first_free(name, seen, first_free(name, seen)),
        first_free(name, seen) <= seen.len(),
{
    let found = lemma_search_first_free(name, seen, 1);
    lemma_first_free_unique(name, seen, found, first_free(name, seen));
}

proof fn lemma_search_first_free(name: Seq<char>, seen: Seq<Seq<char>>, from: nat) -> (found: nat)
    requires
        from >= 1,
        seen.contains(name),
        forall|k: nat| 1 <= k < from ==> seen.contains(#[trigger] numbered(name, k)),
    ensures
        is_first_free(name, seen, found),
        found <= seen.len(),
    decreases seen.len() + 1 - from,
{
    lemma_probes_are_bounded(name, seen, (from - 1) as nat);
    if seen.contains(numbered(name, from)) {
        lemma_probes_are_bounded(name, seen, from);
        lemma_search_first_free(name, seen, from + 1)
    } else {
        from
    }
}

/// The name that a file is stored under is not among the names taken.
pub proof fn lemma_assigned_name_is_free(name: Seq<char>, seen: Seq<Seq<char>>)
    ensures
        !seen.contains(assigned_name(name, seen)),
{
    if seen.contains(name) {
        lemma_first_free_exists(name, seen);
    }
}

/// `name` and its first `n` substitutes.
pub open spec fn tried_names(name: Seq<char>, n: nat) -> Set<Seq<char>>
    decreases n,
{
    if n == 0 {
        set![name]
    } else {
        tried_names(name, (n - 1) as nat).insert(numbered(name, n))
    }
}

/// `name` and its first `n` substitutes are `n + 1` different names.
pub proof fn lemma_tried_names(name: Seq<char>, n: nat)
    ensures
        tried_names(name, n).finite(),
        tried_names(name, n).len() == n + 1,
        forall|x: Seq<char>| #[trigger]
            tried_names(name, n).contains(x) <==> (x == name || exists|k: nat|
                1 <= k <= n && x == numbered(name, k)),
    decreases n,
{
    broadcast use vstd::set::group_set_axioms;

    if n > 0 {
        let before = tried_names(name, (n - 1) as nat);
        let next = numbered(name, n);
        lemma_tried_names(name, (n - 1) as nat);
        assert(!before.contains(next)) by {
            lemma_numbered_is_longer(name, n);
            if exists|k: nat| 1 <= k <= n - 1 && next == numbered(name, k) {
                let k = choose|k: nat| 1 <= k <= n - 1 && next == numbered(name, k);
                lemma_numbered_injective(name, n, k);
            }
        }
    }
}

/// Where a name and its first `n` substitutes are all taken, more than `n`
/// names are taken: a free substitute is found within as many probes as
/// there are names, plus one.
pub proof fn lemma_probes_are_bounded(name: Seq<char>, seen: Seq<Seq<char>>, n: nat)
    requires
        seen.contains(name),
        forall|k: nat| 1 <= k <= n ==> seen.contains(#[trigger] numbered(name, k)),
    ensures
        n + 1 <= seen.len(),
{
    broadcast use vstd::seq_lib::seq_to_set_is_finite;

    lemma_tried_names(name, n);
    vstd::set_lib::lemma_len_subset(tried_names(name, n), seen.to_set());
    seen.lemma_cardinality_of_set();
}

/// The `n`-th substitute for `name`.
pub fn numbered_name(name: &str, n: usize) -> (out: String)
    ensures
        out@ == numbered(name@, n as nat),
{
    string_of(&numbered_chars(&chars_of(name), n))
}

fn numbered_chars(name: &Vec<char>, n: usize) -> (out: Vec<char>)
    ensures
        out@ == numbered(name@, n as nat),
{
    proof {
        lemma_last_index_of(name@, '.');
    }
    let mut out: Vec<char> = Vec::new();
    match find_last(name, '.') {
        Some(dot) => {
            push_range(&mut out, name, 0, dot);
            out.push('_');
            push_decimal(&mut out, n);
            if dot + 1 < name.len() {
                out.push('.');
                push_range(&mut out, name, dot + 1, name.len());
            }
        },
        None => {
            push_range(&mut out, name, 0, name.len());
            out.push('_');
            push_decimal(&mut out, n);
        },
    }
    out
}

/// Gives the file at `relative` its name in the flat directory and records
/// that name in `seen`.
///
/// The name is the path's candidate name if no file has it yet, else the
/// first free substitute for it. It was not taken before, so no two files
/// of a run share a name.
pub fn flatten_name(relative: &str, seen: &mut SeenNames) -> (name: String)
    ensures
        name@ == assigned_name(candidate_name(relative@), old(seen)@),
        !old(seen)@.contains(name@),
        final(seen)@ == old(seen)@.push(name@),
        final(seen)@.no_duplicates(),
{
    let candidate = candidate_chars(relative);
    let taken = seen.len();
    let mut name = string_of(&candidate);
    let mut tried: usize = 0;
    while seen.contains(name.as_str())
        invariant
            *seen == *old(seen),
            taken == seen@.len(),
            candidate@ == candidate_name(relative@),
            name@ == if tried == 0 {
                candidate@
            } else {
                numbered(candidate@, tried as nat)
            },
            tried > 0 ==> seen@.contains(candidate@),
            forall|k: nat| 1 <= k < tried ==> seen@.contains(#[trigger] numbered(candidate@, k)),
        decreases taken - tried,
    {
        proof {
            lemma_probes_are_bounded(candidate@, seen@, tried as nat);
        }
        tried += 1;
        name = string_of(&numbered_chars(&candidate, tried));
    }
    proof {
        if tried > 0 {
            lemma_first_free_unique(
                candidate@,
                seen@,
                tried as nat,
                first_free(candidate@, seen@),
            );
        }
    }
    seen.record(name.clone());
    name
}

} // verus!
