//! One run of flattening: what is decided for each entry of the tree.
//!
//! A run takes the entries of the tree in the order in which they are
//! found. Each is passed over, for one of four reasons, or stored under a
//! name that no entry before it got.

use vstd::prelude::*;
use crate::context::{IgnoreContext, RuleSets};
use crate::name::{assigned_name, candidate_name, flatten_name, lemma_assigned_name_is_free};
use crate::path::{
    check_relative,
    file_name,
    file_name_of,
    is_relative,
    is_reserved_name,
    is_within,
    should_skip_file,
    within,
};
use crate::seen::SeenNames;

verus! {

/// What an entry of the tree is, as far as a run reads it.
pub struct Entry {
    /// Its path relative to the root of the tree.
    pub relative: Seq<char>,
    /// Whether it is a regular file.
    pub is_file: bool,
}

/// An entry of the tree. Its path is relative to the root of the tree.
pub struct FileEntry {
    relative: String,
    is_file: bool,
}

impl View for FileEntry {
    type V = Entry;

    closed spec fn view(&self) -> Entry {
        Entry { relative: self.relative@, is_file: self.is_file }
    }
}

impl FileEntry {
    #[verifier::type_invariant]
    closed spec fn well_formed(&self) -> bool {
        is_relative(self.relative@)
    }

    /// The entry at `relative`, if that is a relative path.
    pub fn new(relative: &str, is_file: bool) -> (entry: Option<FileEntry>)
        ensures
            entry is Some <==> is_relative(relative@),
            match entry {
                Some(e) => e@ == (Entry { relative: relative@, is_file }),
                None => true,
            },
    {
        if check_relative(relative) {
            Some(FileEntry { relative: relative.to_owned(), is_file })
        } else {
            None
        }
    }

    /// The entry's path, relative to the root of the tree.
    pub fn relative(&self) -> (path: &str)
        ensures
            path@ == self@.relative,
            is_relative(path@),
    {
        proof {
            use_type_invariant(self);
        }
        self.relative.as_str()
    }

    /// Whether the entry is a regular file.
    pub fn is_file(&self) -> (is_file: bool)
        ensures
            is_file == self@.is_file,
    {
        self.is_file
    }
}

/// What a run decides for one entry, as a value of the program.
#[derive(Debug, PartialEq, Eq)]
pub enum Decision {
    /// Passed over: it is no regular file.
    NotAFile,
    /// Passed over: it lies in the directory that the run writes to.
    InDestination,
    /// Passed over: it is one of the two files of rules.
    Reserved,
    /// Passed over: the rules exclude it.
    Ignored,
    /// Stored under this name.
    Copy(String),
}

/// What a run decides for one entry.
pub enum Outcome {
    /// Passed over: it is no regular file.
    NotAFile,
    /// Passed over: it lies in the directory that the run writes to.
    InDestination,
    /// Passed over: it is one of the two files of rules.
    Reserved,
    /// Passed over: the rules exclude it.
    Ignored,
    /// Stored under this name.
    Copy(Seq<char>),
}

impl View for Decision {
    type V = Outcome;

    open spec fn view(&self) -> Outcome {
        match self {
            Decision::NotAFile => Outcome::NotAFile,
            Decision::InDestination => Outcome::InDestination,
            Decision::Reserved => Outcome::Reserved,
            Decision::Ignored => Outcome::Ignored,
            Decision::Copy(name) => Outcome::Copy(name@),
        }
    }
}

/// Whether an entry is stored unless the rules exclude it: a regular file
/// outside the destination that is no file of rules.
pub open spec fn is_candidate(entry: Entry, destination: Seq<char>) -> bool {
    &&& entry.is_file
    &&& !is_within(entry.relative, destination)
    &&& !is_reserved_name(file_name(entry.relative))
}

/// What is decided for `entry` when the rules exclude it or not, as
/// `ignored` says, and the names in `seen` are taken.
pub open spec fn outcome(
    entry: Entry,
    destination: Seq<char>,
    ignored: bool,
    seen: Seq<Seq<char>>,
) -> Outcome {
    if !entry.is_file {
        Outcome::NotAFile
    } else if is_within(entry.relative, destination) {
        Outcome::InDestination
    } else if is_reserved_name(file_name(entry.relative)) {
        Outcome::Reserved
    } else if ignored {
        Outcome::Ignored
    } else {
        Outcome::Copy(assigned_name(candidate_name(entry.relative), seen))
    }
}

/// The names taken once `decided` has been decided with `seen` taken.
pub open spec fn seen_after(seen: Seq<Seq<char>>, decided: Outcome) -> Seq<Seq<char>> {
    match decided {
        Outcome::Copy(name) => seen.push(name),
        _ => seen,
    }
}

/// The state of a run: the names it has given out, in order.
pub struct FlattenRun {
    seen: SeenNames,
}

impl View for FlattenRun {
    type V = Seq<Seq<char>>;

    closed spec fn view(&self) -> Seq<Seq<char>> {
        self.seen@
    }
}

impl FlattenRun {
    /// A run that has stored nothing yet.
    pub fn new() -> (run: Self)
        ensures
            run@ == Seq::<Seq<char>>::empty(),
    {
        FlattenRun { seen: SeenNames::new() }
    }

    /// How many files the run has stored. Each has a name of its own.
    pub fn processed(&self) -> (count: usize)
        ensures
            count == self@.len(),
            self@.no_duplicates(),
    {
        self.seen.len()
    }

    /// Decides on `entry`, given whether the rules exclude it, and takes
    /// the name it is stored under, if it is stored.
    pub fn decide(&mut self, destination: &str, entry: &FileEntry, ignored: bool) -> (decision:
        Decision)
        ensures
            decision@ == outcome(entry@, destination@, ignored, old(self)@),
            final(self)@ == seen_after(old(self)@, decision@),
    {
        match screen(destination, entry) {
            Some(passed_over) => passed_over,
            None => self.settle(entry, ignored),
        }
    }

    /// Decides on `entry` by the rules of `context`, and takes the name it
    /// is stored under, if it is stored. The rules are asked only about an
    /// entry that would else be stored.
    pub fn step(&mut self, context: &IgnoreContext, destination: &str, entry: &FileEntry) -> (decision:
        Decision)
        ensures
            decision@ == outcome(
                entry@,
                destination@,
                context@.ignores(entry@.relative, false),
                old(self)@,
            ),
            final(self)@ == seen_after(old(self)@, decision@),
    {
        match screen(destination, entry) {
            Some(passed_over) => passed_over,
            None => {
                let ignored = context.is_ignored(entry.relative.as_str(), false);
                self.settle(entry, ignored)
            },
        }
    }

    fn settle(&mut self, entry: &FileEntry, ignored: bool) -> (decision: Decision)
        ensures
            decision@ == (if ignored {
                Outcome::Ignored
            } else {
                Outcome::Copy(assigned_name(candidate_name(entry@.relative), old(self)@))
            }),
            final(self)@ == seen_after(old(self)@, decision@),
    {
        if ignored {
            Decision::Ignored
        } else {
            Decision::Copy(flatten_name(entry.relative.as_str(), &mut self.seen))
        }
    }
}

fn screen(destination: &str, entry: &FileEntry) -> (passed_over: Option<Decision>)
    ensures
        match passed_over {
            Some(decision) => !is_candidate(entry@, destination@) && forall|
                ignored: bool,
                seen: Seq<Seq<char>>,
            | decision@ == #[trigger] outcome(entry@, destination@, ignored, seen),
            None => is_candidate(entry@, destination@),
        },
{
    if !entry.is_file {
        Some(Decision::NotAFile)
    } else if within(entry.relative.as_str(), destination) {
        Some(Decision::InDestination)
    } else if should_skip_file(file_name_of(entry.relative.as_str()).as_str()) {
        Some(Decision::Reserved)
    } else {
        None
    }
}

/// What each entry of `entries` is.
pub open spec fn entry_views(entries: Seq<FileEntry>) -> Seq<Entry> {
    entries.map_values(|e: FileEntry| e@)
}

/// What each decision of `decisions` says.
pub open spec fn decision_views(decisions: Seq<Decision>) -> Seq<Outcome> {
    decisions.map_values(|d: Decision| d@)
}

/// The names under which files are stored by `outcomes`, in order.
pub open spec fn names_of(outcomes: Seq<Outcome>) -> Seq<Seq<char>>
    decreases outcomes.len(),
{
    if outcomes.len() == 0 {
        Seq::empty()
    } else {
        seen_after(names_of(outcomes.drop_last()), outcomes.last())
    }
}

/// What a run by `rules` decides for each of `entries`, taken in order from
/// a state in which no name is taken.
pub open spec fn run_outcomes(rules: RuleSets, destination: Seq<char>, entries: Seq<Entry>) -> Seq<
    Outcome,
>
    decreases entries.len(),
{
    if entries.len() == 0 {
        Seq::empty()
    } else {
        let before = run_outcomes(rules, destination, entries.drop_last());
        let entry = entries.last();
        before.push(
            outcome(entry, destination, rules.ignores(entry.relative, false), names_of(before)),
        )
    }
}

/// Runs over `entries` in order and returns what is decided for each.
pub fn plan(context: &IgnoreContext, destination: &str, entries: &Vec<FileEntry>) -> (decisions:
    Vec<Decision>)
    ensures
        decision_views(decisions@) == run_outcomes(
            context@,
            destination@,
            entry_views(entries@),
        ),
{
    let mut run = FlattenRun::new();
    let mut decisions: Vec<Decision> = Vec::new();
    let mut i: usize = 0;
    while i < entries.len()
        invariant
            i <= entries.len(),
            decision_views(decisions@) == run_outcomes(
                context@,
                destination@,
                entry_views(entries@).take(i as int),
            ),
            run@ == names_of(decision_views(decisions@)),
        decreases entries.len() - i,
    {
        let decision = run.step(context, destination, &entries[i]);
        proof {
            let upto = entry_views(entries@).take(i + 1);
            assert(upto.drop_last() =~= entry_views(entries@).take(i as int));
            let after = decision_views(decisions@.push(decision));
            assert(after.drop_last() =~= decision_views(decisions@));
        }
        decisions.push(decision);
        i += 1;
    }
    assert(entry_views(entries@).take(entries.len() as int) =~= entry_views(entries@));
    decisions
}

/// Two runs over the same entries, by the same rules and with the same
/// destination, decide alike for every entry: what a run decides depends on
/// nothing else.
pub proof fn lemma_runs_agree(
    first: RuleSets,
    second: RuleSets,
    destination: Seq<char>,
    entries: Seq<Entry>,
    again: Seq<Entry>,
)
    requires
        first.general == second.general,
        first.tool == second.tool,
        entries.len() == again.len(),
        forall|i: int| 0 <= i < entries.len() ==> entries[i] == again[i],
    ensures
        run_outcomes(first, destination, entries) == run_outcomes(second, destination, again),
        names_of(run_outcomes(first, destination, entries)) == names_of(
            run_outcomes(second, destination, again),
        ),
{
    assert(entries =~= again);
}

/// A run decides once for each entry, and what it decides for the first
/// entries does not depend on those that follow.
pub proof fn lemma_run_prefix(rules: RuleSets, destination: Seq<char>, entries: Seq<Entry>, n: int)
    requires
        0 <= n <= entries.len(),
    ensures
        run_outcomes(rules, destination, entries).len() == entries.len(),
        run_outcomes(rules, destination, entries.take(n)) == run_outcomes(
            rules,
            destination,
            entries,
        ).take(n),
    decreases entries.len(),
{
    if entries.len() > 0 {
        let front = entries.drop_last();
        lemma_run_prefix(rules, destination, front, front.len() as int);
        if n == entries.len() {
            assert(entries.take(n) =~= entries);
        } else {
            lemma_run_prefix(rules, destination, front, n);
            assert(entries.take(n) =~= front.take(n));
        }
    }
}

/// What a run decides for its `i`-th entry is what is decided for that
/// entry with the names taken that the entries before it were stored under.
pub proof fn lemma_run_at(rules: RuleSets, destination: Seq<char>, entries: Seq<Entry>, i: int)
    requires
        0 <= i < entries.len(),
    ensures
        run_outcomes(rules, destination, entries).len() == entries.len(),
        run_outcomes(rules, destination, entries)[i] == outcome(
            entries[i],
            destination,
            rules.ignores(entries[i].relative, false),
            names_of(run_outcomes(rules, destination, entries.take(i))),
        ),
{
    let upto = entries.take(i + 1);
    lemma_run_prefix(rules, destination, entries, i + 1);
    lemma_run_prefix(rules, destination, entries.take(i), i);
    assert(upto.drop_last() =~= entries.take(i));
    assert(run_outcomes(rules, destination, entries)[i] == run_outcomes(
        rules,
        destination,
        entries,
    ).take(i + 1)[i]);
}

/// A run stores exactly the regular files outside the destination that are
/// no files of rules and that the rules do not exclude: none of them is
/// dropped, and nothing else is stored.
pub proof fn lemma_stored_exactly_when_kept(
    rules: RuleSets,
    destination: Seq<char>,
    entries: Seq<Entry>,
    i: int,
)
    requires
        0 <= i < entries.len(),
    ensures
        run_outcomes(rules, destination, entries).len() == entries.len(),
        run_outcomes(rules, destination, entries)[i] is Copy <==> is_candidate(
            entries[i],
            destination,
        ) && !rules.ignores(entries[i].relative, false),
{
    lemma_run_at(rules, destination, entries, i);
}

/// A file of rules is never stored, whatever the rules say.
pub proof fn lemma_rule_files_are_never_stored(
    rules: RuleSets,
    destination: Seq<char>,
    entries: Seq<Entry>,
    i: int,
)
    requires
        0 <= i < entries.len(),
        file_name(entries[i].relative) == ".gitignore"@ || file_name(entries[i].relative)
            == ".flattenignore"@,
    ensures
        run_outcomes(rules, destination, entries).len() == entries.len(),
        !(run_outcomes(rules, destination, entries)[i] is Copy),
{
    lemma_stored_exactly_when_kept(rules, destination, entries, i);
}

/// What lies in the destination is never stored, whatever the rules say.
pub proof fn lemma_destination_is_never_stored(
    rules: RuleSets,
    destination: Seq<char>,
    entries: Seq<Entry>,
    i: int,
)
    requires
        0 <= i < entries.len(),
        is_within(entries[i].relative, destination),
    ensures
        run_outcomes(rules, destination, entries).len() == entries.len(),
        !(run_outcomes(rules, destination, entries)[i] is Copy),
{
    lemma_stored_exactly_when_kept(rules, destination, entries, i);
}

/// No two files of a run are stored under the same name.
pub proof fn lemma_names_are_distinct(rules: RuleSets, destination: Seq<char>, entries: Seq<Entry>)
    ensures
        names_of(run_outcomes(rules, destination, entries)).no_duplicates(),
    decreases entries.len(),
{
    if entries.len() > 0 {
        let front = entries.drop_last();
        let before = run_outcomes(rules, destination, front);
        let all = run_outcomes(rules, destination, entries);
        lemma_names_are_distinct(rules, destination, front);
        assert(all.drop_last() =~= before);
        match all.last() {
            Outcome::Copy(name) => {
                lemma_assigned_name_is_free(
                    candidate_name(entries.last().relative),
                    names_of(before),
                );
            },
            _ => {},
        }
    }
}

/// The files that `outcomes` store of `entries`: the path and the name of
/// each, in order.
pub open spec fn stored(outcomes: Seq<Outcome>, entries: Seq<Entry>) -> Seq<
    (Seq<char>, Seq<char>),
>
    decreases outcomes.len(),
{
    if outcomes.len() == 0 || entries.len() == 0 {
        Seq::empty()
    } else {
        let before = stored(outcomes.drop_last(), entries.drop_last());
        match outcomes.last() {
            Outcome::Copy(name) => before.push((entries.last().relative, name)),
            _ => before,
        }
    }
}

/// The files that a run by `rules` over `entries` stores: the path and the
/// name of each, in order.
pub open spec fn files_stored(rules: RuleSets, destination: Seq<char>, entries: Seq<Entry>) -> Seq<
    (Seq<char>, Seq<char>),
> {
    stored(run_outcomes(rules, destination, entries), entries)
}

/// Those of `entries` that do not lie in the destination.
pub open spec fn outside(entries: Seq<Entry>, destination: Seq<char>) -> Seq<Entry> {
    entries.filter(|e: Entry| !is_within(e.relative, destination))
}

/// What lies in the destination changes nothing: a run stores the same
/// files, under the same names, as a run over the other entries alone. So a
/// run over a tree that still holds what an earlier run wrote stores what a
/// run over the tree without it stores.
pub proof fn lemma_destination_changes_nothing(
    rules: RuleSets,
    destination: Seq<char>,
    entries: Seq<Entry>,
)
    ensures
        files_stored(rules, destination, entries) == files_stored(
            rules,
            destination,
            outside(entries, destination),
        ),
        names_of(run_outcomes(rules, destination, entries)) == names_of(
            run_outcomes(rules, destination, outside(entries, destination)),
        ),
    decreases entries.len(),
{
    reveal(Seq::filter);
    if entries.len() > 0 {
        let front = entries.drop_last();
        let last = entries.last();
        let all = run_outcomes(rules, destination, entries);
        lemma_destination_changes_nothing(rules, destination, front);
        lemma_run_prefix(rules, destination, front, 0);
        assert(all.drop_last() =~= run_outcomes(rules, destination, front));
        if !is_within(last.relative, destination) {
            let kept_front = outside(front, destination);
            let kept = outside(entries, destination);
            lemma_run_prefix(rules, destination, kept_front, 0);
            assert(kept.drop_last() =~= kept_front);
            assert(run_outcomes(rules, destination, kept).drop_last() =~= run_outcomes(
                rules,
                destination,
                kept_front,
            ));
        }
    }
}

} // verus!
