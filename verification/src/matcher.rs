//! The rule matcher of the `ignore` crate, as far as this library uses it.
//!
//! Nothing in this file is proved. Each item states what the crate's code
//! does; the rest of the library is proved from these statements.
//!
//! A builder is made by `GitignoreBuilder::new` and filled by `add_line`,
//! and nothing here touches its options, so a rule is read in one way only:
//! case matters, and no file is named as the source of a line. What a
//! builder or a matcher does is then fixed by its root and by the texts of
//! its rules, which is what the names below stand for. The statements are
//! made of the crate as it is built for a system whose paths are written
//! with `/`.

use vstd::prelude::*;
use crate::lines::is_comment_or_blank;

verus! {

/// `ignore::gitignore::GitignoreBuilder`: collects rules, one line at a
/// time, for one directory.
#[verifier::external_type_specification]
#[verifier::external_body]
pub struct ExGitignoreBuilder(ignore::gitignore::GitignoreBuilder);

/// `ignore::gitignore::Gitignore`: the matcher built from collected rules.
#[verifier::external_type_specification]
#[verifier::external_body]
pub struct ExGitignore(ignore::gitignore::Gitignore);

/// The directory that a builder holds as the root of its rules.
pub uninterp spec fn builder_root(builder: ignore::gitignore::GitignoreBuilder) -> Seq<char>;

/// The rules that a builder holds, in the order in which they were added,
/// each as the text it keeps of it.
pub uninterp spec fn builder_rules(builder: ignore::gitignore::GitignoreBuilder) -> Seq<Seq<char>>;

/// The directory that a matcher holds as the root of its rules.
pub uninterp spec fn matcher_root(matcher: ignore::gitignore::Gitignore) -> Seq<char>;

/// The rules that a matcher holds, in order.
pub uninterp spec fn matcher_rules(matcher: ignore::gitignore::Gitignore) -> Seq<Seq<char>>;

/// What `GitignoreBuilder::add_line` makes of one line: the text of the
/// rule that it adds, or nothing where it adds none (a blank line, a
/// comment, a line that is no valid pattern).
pub uninterp spec fn rule_of_line(line: Seq<char>) -> Option<Seq<char>>;

/// Whether `GitignoreBuilder::build` succeeds on these rules.
pub uninterp spec fn rules_compile(rules: Seq<Seq<char>>) -> bool;

/// What `Gitignore::matched` finds for `path`, taken by itself, in a
/// matcher that is rooted at `.` and holds the one rule `rule`: nothing
/// where the rule does not match the path; else whether the rule excludes
/// the path (`true`) or, being negated, keeps it (`false`). A rule for
/// directories only matches no path that is not a directory.
pub uninterp spec fn rule_match(rule: Seq<char>, path: Seq<char>, is_dir: bool) -> Option<bool>;

/// `GitignoreBuilder::new`: a builder without rules. It keeps `root` as
/// given, unless `root` begins with `./`, which it would drop: such a root
/// is left out here.
#[verifier::external_body]
pub(crate) fn new_builder(root: &str) -> (builder: ignore::gitignore::GitignoreBuilder)
    requires
        !(root@.len() >= 2 && root@[0] == '.' && root@[1] == '/'),
    ensures
        builder_root(builder) == root@,
        builder_rules(builder) == Seq::<Seq<char>>::empty(),
{
    ignore::gitignore::GitignoreBuilder::new(root)
}

/// `GitignoreBuilder::add_line`, with no file named as the line's source.
/// The line adds the rule it denotes, or none, behind the rules held; a
/// line that begins with `#` and a line of nothing but white space add
/// none. Whether the call reports an error is not handed on: such a line
/// adds no rule.
#[verifier::external_body]
pub(crate) fn add_line(builder: &mut ignore::gitignore::GitignoreBuilder, line: &str)
    ensures
        builder_root(*final(builder)) == builder_root(*old(builder)),
        builder_rules(*final(builder)) == match rule_of_line(line@) {
            Some(rule) => builder_rules(*old(builder)).push(rule),
            None => builder_rules(*old(builder)),
        },
        is_comment_or_blank(line@) ==> builder_rules(*final(builder)) == builder_rules(
            *old(builder),
        ),
{
    let _ = builder.add_line(None, line);
}

/// `GitignoreBuilder::build`: the matcher for the root and rules held, or
/// nothing where the crate cannot compile them. A builder without rules
/// always gives a matcher.
#[verifier::external_body]
pub(crate) fn build(builder: &ignore::gitignore::GitignoreBuilder) -> (matcher: Option<
    ignore::gitignore::Gitignore,
>)
    ensures
        matcher is Some <==> rules_compile(builder_rules(*builder)),
        builder_rules(*builder).len() == 0 ==> matcher is Some,
        match matcher {
            Some(m) => matcher_root(m) == builder_root(*builder) && matcher_rules(m)
                == builder_rules(*builder),
            None => true,
        },
{
    builder.build().ok()
}

/// `Gitignore::is_empty`: whether the matcher holds no rule.
#[verifier::external_body]
pub(crate) fn holds_no_rule(matcher: &ignore::gitignore::Gitignore) -> (empty: bool)
    ensures
        empty == (matcher_rules(*matcher).len() == 0),
{
    matcher.is_empty()
}

/// `Gitignore::matched`, with its three answers told apart: what the
/// matcher's one rule makes of `path` by itself. No directory above the
/// path is asked. With `.` as root the crate takes the path as it is given,
/// but for a leading `./`, which it drops.
#[verifier::external_body]
pub(crate) fn matched(matcher: &ignore::gitignore::Gitignore, path: &str, is_dir: bool) -> (found:
    Option<bool>)
    requires
        matcher_root(*matcher) == seq!['.'],
        matcher_rules(*matcher).len() == 1,
    ensures
        found == rule_match(matcher_rules(*matcher)[0], path@, is_dir),
{
    match matcher.matched(path, is_dir) {
        ignore::Match::None => None,
        ignore::Match::Ignore(_) => Some(true),
        ignore::Match::Whitelist(_) => Some(false),
    }
}

} // verus!
