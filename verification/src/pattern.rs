//! Sets of rules, and the decision they give on a path.
//!
//! A set of rules is compiled from the text of one file of rules, rule by
//! rule. Paths are judged relative to the directory that holds that file.
//! Whether one rule matches one path is the work of the `ignore` crate; how
//! the rules of a set and the directories above a path add up to a decision
//! is decided here.

use vstd::prelude::*;
use crate::lines::{is_comment_or_blank, lines_of, split_lines};
use crate::matcher::{
    add_line,
    build,
    builder_rules,
    holds_no_rule,
    matched,
    matcher_root,
    matcher_rules,
    new_builder,
    rule_match,
    rule_of_line,
    rules_compile,
};
use crate::text::{chars_of, push_range, string_of, texts};

verus! {

/// The rule that a line gives a set: the rule it denotes, if it denotes one
/// and that rule compiles. A line that gives none is passed over.
pub open spec fn effective_rule(line: Seq<char>) -> Option<Seq<char>> {
    match rule_of_line(line) {
        Some(rule) => if rules_compile(seq![rule]) {
            Some(rule)
        } else {
            None
        },
        None => None,
    }
}

/// The rules that these lines add up to: each line gives its rule, or none,
/// in the order of the lines.
pub open spec fn rules_of(lines: Seq<Seq<char>>) -> Seq<Seq<char>>
    decreases lines.len(),
{
    if lines.len() == 0 {
        Seq::empty()
    } else {
        match effective_rule(lines.last()) {
            Some(rule) => rules_of(lines.drop_last()).push(rule),
            None => rules_of(lines.drop_last()),
        }
    }
}

/// The rules that the text of a file of rules adds up to.
pub open spec fn rules_of_text(text: Seq<char>) -> Seq<Seq<char>> {
    rules_of(lines_of(text))
}

/// The last of `rules` that matches `path` by itself, if one does: its place
/// among the rules, and whether it excludes the path (`true`) or, being
/// negated, keeps it (`false`). Rules before it have no say.
pub open spec fn last_match(rules: Seq<Seq<char>>, path: Seq<char>, is_dir: bool) -> Option<
    (int, bool),
>
    decreases rules.len(),
{
    if rules.len() == 0 {
        None
    } else {
        match rule_match(rules.last(), path, is_dir) {
            Some(excluded) => Some((rules.len() - 1, excluded)),
            None => last_match(rules.drop_last(), path, is_dir),
        }
    }
}

/// Whether the first `n` characters of `path` name a directory above it:
/// the root, for `n == 0`, or what stands before a separator.
pub open spec fn is_directory_above(path: Seq<char>, n: int) -> bool {
    0 <= n < path.len() && (n == 0 || path[n] == '/')
}

/// Whether the rule at place `at` excludes one of the first `limit`
/// directories above `path`: it is the last rule that matches that
/// directory, and it is not negated.
pub open spec fn excluded_above_within(
    rules: Seq<Seq<char>>,
    path: Seq<char>,
    limit: int,
    at: int,
) -> bool {
    exists|n: int|
        n < limit && #[trigger] is_directory_above(path, n) && last_match(
            rules,
            path.take(n),
            true,
        ) == Some((at, true))
}

/// Whether the rule at place `at` excludes a directory above `path`.
pub open spec fn excluded_above(rules: Seq<Seq<char>>, path: Seq<char>, at: int) -> bool {
    excluded_above_within(rules, path, path.len() as int, at)
}

/// What follows for a path from the last rule that matches it by itself
/// (`own`) and from the latest rule that excludes a directory above it
/// (`above`): the path is left out when its own rule excludes it, and when a
/// directory above it is excluded and no later rule keeps the path itself.
pub open spec fn is_exclusion(own: Option<(int, bool)>, above: Option<int>) -> bool {
    match own {
        Some(m) => m.1 || (above is Some && m.0 < above->0),
        None => above is Some,
    }
}

/// Whether `rules` exclude `path`, which is a directory or not as `is_dir`
/// says. They do when the last rule that matches the path excludes it. They
/// also do when they exclude a directory above the path, unless a rule
/// later than the excluding one matches the path itself and keeps it.
pub open spec fn rules_ignore(rules: Seq<Seq<char>>, path: Seq<char>, is_dir: bool) -> bool {
    let own = last_match(rules, path, is_dir);
    ||| own is Some && (own->0).1
    ||| exists|at: int| #[trigger]
        excluded_above(rules, path, at) && (own is Some ==> (own->0).0 < at)
}

/// What follows for a path from the last rule that matches it by itself
/// and from the latest rule that excludes a directory above it.
pub fn excludes(own: Option<(usize, bool)>, above: Option<usize>) -> (excluded: bool)
    ensures
        excluded == is_exclusion(
            match own {
                Some(m) => Some((m.0 as int, m.1)),
                None => None,
            },
            match above {
                Some(at) => Some(at as int),
                None => None,
            },
        ),
{
    match own {
        Some(m) => m.1 || match above {
            Some(at) => m.0 < at,
            None => false,
        },
        None => above.is_some(),
    }
}

/// The rules of two runs of lines, one behind the other, are the rules of
/// the first and then those of the second.
pub proof fn lemma_rules_of_concat(first: Seq<Seq<char>>, second: Seq<Seq<char>>)
    ensures
        rules_of(first + second) == rules_of(first) + rules_of(second),
    decreases second.len(),
{
    if second.len() > 0 {
        lemma_rules_of_concat(first, second.drop_last());
        assert((first + second).drop_last() =~= first + second.drop_last());
    }
}

/// A line that gives no rule, be it a comment, blank or malformed, changes
/// nothing: the lines around it give the rules they give without it.
pub proof fn lemma_line_without_rule_changes_nothing(
    before: Seq<Seq<char>>,
    line: Seq<char>,
    after: Seq<Seq<char>>,
)
    requires
        effective_rule(line) is None,
    ensures
        rules_of(before + seq![line] + after) == rules_of(before + after),
{
    lemma_rules_of_concat(before + seq![line], after);
    lemma_rules_of_concat(before, seq![line]);
    lemma_rules_of_concat(before, after);
    assert(rules_of(seq![line].drop_last()) =~= Seq::<Seq<char>>::empty());
}

/// The last match is the match of the last rule that matches: every rule
/// behind it does not match the path, and where there is no last match, no
/// rule matches.
pub proof fn lemma_last_match(rules: Seq<Seq<char>>, path: Seq<char>, is_dir: bool)
    ensures
        match last_match(rules, path, is_dir) {
            Some(m) => 0 <= m.0 < rules.len() && rule_match(rules[m.0], path, is_dir) == Some(m.1)
                && forall|i: int|
                m.0 < i < rules.len() ==> rule_match(#[trigger] rules[i], path, is_dir) is None,
            None => forall|i: int|
                0 <= i < rules.len() ==> rule_match(#[trigger] rules[i], path, is_dir) is None,
        },
    decreases rules.len(),
{
    if rules.len() > 0 && rule_match(rules.last(), path, is_dir) is None {
        let front = rules.drop_last();
        lemma_last_match(front, path, is_dir);
        assert forall|i: int| 0 <= i < front.len() implies rules[i] == front[i] by {}
    }
}

/// A rule that excludes a directory above a path has a place among the
/// rules.
pub proof fn lemma_excluded_above_is_a_rule(rules: Seq<Seq<char>>, path: Seq<char>, at: int)
    requires
        excluded_above(rules, path, at),
    ensures
        0 <= at < rules.len(),
{
    let n = choose|n: int|
        n < path.len() && #[trigger] is_directory_above(path, n) && last_match(
            rules,
            path.take(n),
            true,
        ) == Some((at, true));
    lemma_last_match(rules, path.take(n), true);
}

/// The last rule wins: where the last rule of a set matches a path by
/// itself, it decides, whatever the rules before it say of the path or of
/// the directories above it.
pub proof fn lemma_final_rule_decides(
    rules: Seq<Seq<char>>,
    rule: Seq<char>,
    path: Seq<char>,
    is_dir: bool,
)
    requires
        rule_match(rule, path, is_dir) is Some,
    ensures
        rules_ignore(rules.push(rule), path, is_dir) == rule_match(rule, path, is_dir)->0,
{
    let all = rules.push(rule);
    assert forall|at: int| #[trigger] excluded_above(all, path, at) implies at <= rules.len() by {
        lemma_excluded_above_is_a_rule(all, path, at);
    }
}

/// The order of two rules decides: of a rule that excludes a path and a
/// negated rule that keeps it, the one that stands last has its way.
pub proof fn lemma_order_of_two_rules_decides(
    excluding: Seq<char>,
    keeping: Seq<char>,
    path: Seq<char>,
    is_dir: bool,
)
    requires
        rule_match(excluding, path, is_dir) == Some(true),
        rule_match(keeping, path, is_dir) == Some(false),
    ensures
        !rules_ignore(seq![excluding, keeping], path, is_dir),
        rules_ignore(seq![keeping, excluding], path, is_dir),
{
    lemma_final_rule_decides(seq![excluding], keeping, path, is_dir);
    lemma_final_rule_decides(seq![keeping], excluding, path, is_dir);
    assert(seq![excluding].push(keeping) =~= seq![excluding, keeping]);
    assert(seq![keeping].push(excluding) =~= seq![keeping, excluding]);
}

/// An excluded directory takes what lies below it: a path is left out when
/// the rules exclude a directory above it, unless a rule later than the
/// excluding one matches the path itself and keeps it. A file that no rule
/// matches by itself is left out with its directory, and a negated rule
/// that stands before the excluding one does not bring it back.
pub proof fn lemma_excluded_directory_takes_what_is_below(
    rules: Seq<Seq<char>>,
    path: Seq<char>,
    is_dir: bool,
    n: int,
    at: int,
)
    requires
        is_directory_above(path, n),
        last_match(rules, path.take(n), true) == Some((at, true)),
        match last_match(rules, path, is_dir) {
            Some(own) => own.1 || own.0 < at,
            None => true,
        },
    ensures
        rules_ignore(rules, path, is_dir),
{
    assert(excluded_above(rules, path, at));
}

/// A later rule brings a path back: a path that a negated rule matches by
/// itself is kept when every rule that excludes a directory above it stands
/// before that rule, and so is a path that no rule excludes at all.
pub proof fn lemma_later_rule_keeps(rules: Seq<Seq<char>>, path: Seq<char>, is_dir: bool)
    requires
        match last_match(rules, path, is_dir) {
            Some(own) => !own.1 && forall|at: int| #[trigger]
                excluded_above(rules, path, at) ==> at < own.0,
            None => forall|at: int| !#[trigger] excluded_above(rules, path, at),
        },
    ensures
        !rules_ignore(rules, path, is_dir),
{
}

/// A set without rules excludes nothing.
pub proof fn lemma_no_rules_exclude_nothing(path: Seq<char>, is_dir: bool)
    ensures
        !rules_ignore(Seq::empty(), path, is_dir),
{
    assert forall|at: int| !#[trigger] excluded_above(Seq::empty(), path, at) by {
        if excluded_above(Seq::empty(), path, at) {
            lemma_excluded_above_is_a_rule(Seq::empty(), path, at);
        }
    }
}

spec fn rules_held(matchers: Seq<ignore::gitignore::Gitignore>) -> Seq<Seq<char>> {
    Seq::new(matchers.len(), |i: int| matcher_rules(matchers[i])[0])
}

spec fn each_holds_one(matchers: Seq<ignore::gitignore::Gitignore>) -> bool {
    forall|i: int|
        0 <= i < matchers.len() ==> matcher_root(#[trigger] matchers[i]) == seq!['.']
            && matcher_rules(matchers[i]).len() == 1
}

/// The rules of one file of rules, each compiled by itself, in the order of
/// the file.
pub struct PatternSet {
    matchers: Vec<ignore::gitignore::Gitignore>,
}

impl View for PatternSet {
    type V = Seq<Seq<char>>;

    closed spec fn view(&self) -> Seq<Seq<char>> {
        rules_held(self.matchers@)
    }
}

impl PatternSet {
    #[verifier::type_invariant]
    closed spec fn well_formed(&self) -> bool {
        each_holds_one(self.matchers@)
    }

    /// Compiles the rules that `text` holds, one line at a time. A line that
    /// gives no rule is passed over and takes nothing from the others, which
    /// keep their order. A comment and a blank line denote no rule.
    pub fn parse(text: &str) -> (set: PatternSet)
        ensures
            set@ == rules_of_text(text@),
            forall|i: int|
                0 <= i < lines_of(text@).len() && is_comment_or_blank(
                    #[trigger] lines_of(text@)[i],
                ) ==> rule_of_line(lines_of(text@)[i]) is None,
    {
        let lines = split_lines(text);
        let mut matchers: Vec<ignore::gitignore::Gitignore> = Vec::new();
        let mut i: usize = 0;
        proof {
            reveal_strlit(".");
        }
        while i < lines.len()
            invariant
                i <= lines.len(),
                texts(lines@) == lines_of(text@),
                "."@ == seq!['.'],
                each_holds_one(matchers@),
                rules_held(matchers@) == rules_of(texts(lines@).take(i as int)),
                forall|j: int|
                    0 <= j < i && is_comment_or_blank(#[trigger] texts(lines@)[j])
                        ==> rule_of_line(texts(lines@)[j]) is None,
            decreases lines.len() - i,
        {
            let mut builder = new_builder(".");
            add_line(&mut builder, lines[i].as_str());
            proof {
                let upto = texts(lines@).take(i + 1);
                assert(upto.drop_last() =~= texts(lines@).take(i as int));
            }
            match build(&builder) {
                Some(matcher) => {
                    if !holds_no_rule(&matcher) {
                        matchers.push(matcher);
                    }
                },
                None => {},
            }
            i += 1;
        }
        assert(texts(lines@).take(lines.len() as int) =~= texts(lines@));
        PatternSet { matchers }
    }

    /// How many rules the set holds.
    pub fn len(&self) -> (n: usize)
        ensures
            n == self@.len(),
    {
        self.matchers.len()
    }

    /// The last rule of the set that matches `path` by itself, if one does:
    /// its place, and whether it excludes the path.
    pub fn last_match(&self, path: &str, is_dir: bool) -> (found: Option<(usize, bool)>)
        ensures
            last_match(self@, path@, is_dir) == (match found {
                Some(m) => Some((m.0 as int, m.1)),
                None => None,
            }),
            found is Some ==> (found->0).0 < self@.len(),
    {
        proof {
            use_type_invariant(self);
        }
        let mut end: usize = self.matchers.len();
        assert(self@.take(end as int) =~= self@);
        while end > 0
            invariant
                end <= self.matchers.len(),
                each_holds_one(self.matchers@),
                self@ == rules_held(self.matchers@),
                last_match(self@, path@, is_dir) == last_match(
                    self@.take(end as int),
                    path@,
                    is_dir,
                ),
            decreases end,
        {
            let found = matched(&self.matchers[end - 1], path, is_dir);
            assert(self@.take(end as int).drop_last() =~= self@.take(end - 1));
            match found {
                Some(excluded) => {
                    return Some((end - 1, excluded));
                },
                None => {},
            }
            end -= 1;
        }
        None
    }

    /// The latest rule of the set that excludes a directory above `path`,
    /// if one does.
    pub fn latest_exclusion_above(&self, path: &str) -> (latest: Option<usize>)
        ensures
            match latest {
                Some(at) => excluded_above(self@, path@, at as int) && forall|other: int| #[trigger]
                    excluded_above(self@, path@, other) ==> other <= at,
                None => forall|other: int| !#[trigger] excluded_above(self@, path@, other),
            },
    {
        let chars = chars_of(path);
        let mut latest: Option<usize> = None;
        let mut n: usize = 0;
        while n < chars.len()
            invariant
                n <= chars.len(),
                chars@ == path@,
                match latest {
                    Some(at) => excluded_above_within(self@, path@, n as int, at as int)
                        && forall|other: int| #[trigger]
                        excluded_above_within(self@, path@, n as int, other) ==> other <= at,
                    None => forall|other: int| !#[trigger] excluded_above_within(
                        self@,
                        path@,
                        n as int,
                        other,
                    ),
                },
            decreases chars.len() - n,
        {
            let mut here: Option<usize> = None;
            if n == 0 || chars[n] == '/' {
                let mut dir: Vec<char> = Vec::new();
                push_range(&mut dir, &chars, 0, n);
                let dir = string_of(&dir);
                match self.last_match(dir.as_str(), true) {
                    Some(m) => {
                        if m.1 {
                            here = Some(m.0);
                        }
                    },
                    None => {},
                }
            }
            match here {
                Some(at) => {
                    let better = match latest {
                        Some(so_far) => so_far < at,
                        None => true,
                    };
                    if better {
                        latest = Some(at);
                    }
                },
                None => {},
            }
            proof {
                assert(here is Some ==> is_directory_above(path@, n as int) && last_match(
                    self@,
                    path@.take(n as int),
                    true,
                ) == Some(((here->0) as int, true)));
                assert forall|other: int| #[trigger]
                    excluded_above_within(self@, path@, n + 1, other) implies (
                excluded_above_within(self@, path@, n as int, other) || (here is Some && other
                    == here->0)) by {
                    let k = choose|k: int|
                        k < n + 1 && #[trigger] is_directory_above(path@, k) && last_match(
                            self@,
                            path@.take(k),
                            true,
                        ) == Some((other, true));
                }
            }
            n += 1;
        }
        latest
    }

    /// Whether the rules exclude `path`, which is a directory or not as
    /// `is_dir` says. The path is asked of the rules by itself, and so is
    /// every directory above it, from the root down.
    pub fn is_ignored(&self, path: &str, is_dir: bool) -> (ignored: bool)
        ensures
            ignored == rules_ignore(self@, path@, is_dir),
            self@.len() == 0 ==> !ignored,
    {
        let own = self.last_match(path, is_dir);
        let above = self.latest_exclusion_above(path);
        proof {
            if self@.len() == 0 {
                lemma_no_rules_exclude_nothing(path@, is_dir);
            }
        }
        excludes(own, above)
    }
}

} // verus!
