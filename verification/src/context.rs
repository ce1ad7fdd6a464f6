//! The rules of a run: those of the general file and those of the tool's
//! own file, each present or absent.

use vstd::prelude::*;
use crate::pattern::{rules_ignore, rules_of_text, PatternSet};

verus! {

/// The rules that a file of rules gives a run: those that its text adds up
/// to, and no set where the file is absent.
pub open spec fn loaded_rules(text: Option<Seq<char>>) -> Option<Seq<Seq<char>>> {
    match text {
        Some(t) => Some(rules_of_text(t)),
        None => None,
    }
}

/// Whether a set of rules, if there is one, excludes `path`.
pub open spec fn set_ignores(rules: Option<Seq<Seq<char>>>, path: Seq<char>, is_dir: bool) -> bool {
    match rules {
        Some(r) => rules_ignore(r, path, is_dir),
        None => false,
    }
}

/// What `text` holds, if there is one.
pub open spec fn text_of(text: Option<&str>) -> Option<Seq<char>> {
    match text {
        Some(t) => Some(t@),
        None => None,
    }
}

/// The rules of a set, if there is one.
pub open spec fn rules_of_set(set: Option<PatternSet>) -> Option<Seq<Seq<char>>> {
    match set {
        Some(s) => Some(s@),
        None => None,
    }
}

/// The rules that a run goes by: those of the general file and those of the
/// tool's own file, each if the run has them.
pub struct RuleSets {
    pub general: Option<Seq<Seq<char>>>,
    pub tool: Option<Seq<Seq<char>>>,
}

impl RuleSets {
    /// Whether a run by these rules leaves `path` out: one of the two sets
    /// excludes it.
    pub open spec fn ignores(self, path: Seq<char>, is_dir: bool) -> bool {
        set_ignores(self.general, path, is_dir) || set_ignores(self.tool, path, is_dir)
    }
}

/// What either set excludes is left out, whatever the other set holds: the
/// second set adds to the first and can take nothing back, a negated rule in
/// one set does not reach into the other, and absent sets leave nothing out.
pub proof fn lemma_either_set_excludes(
    general: Option<Seq<Seq<char>>>,
    tool: Option<Seq<Seq<char>>>,
    path: Seq<char>,
    is_dir: bool,
)
    ensures
        set_ignores(general, path, is_dir) ==> (RuleSets { general, tool }).ignores(path, is_dir),
        set_ignores(tool, path, is_dir) ==> (RuleSets { general, tool }).ignores(path, is_dir),
        (RuleSets { general, tool }).ignores(path, is_dir) ==> set_ignores(general, path, is_dir)
            || set_ignores(tool, path, is_dir),
        !(RuleSets { general: None, tool: None }).ignores(path, is_dir),
{
}

/// The two sets of rules of a run. Each judges a path by itself, and a path
/// is excluded when either set excludes it: the second set adds to the
/// first and takes nothing back.
pub struct IgnoreContext {
    general: Option<PatternSet>,
    tool: Option<PatternSet>,
}

impl View for IgnoreContext {
    type V = RuleSets;

    closed spec fn view(&self) -> RuleSets {
        RuleSets { general: rules_of_set(self.general), tool: rules_of_set(self.tool) }
    }
}

impl IgnoreContext {
    /// The rules of a run, from the sets given.
    pub fn new(general: Option<PatternSet>, tool: Option<PatternSet>) -> (context: Self)
        ensures
            context@.general == rules_of_set(general),
            context@.tool == rules_of_set(tool),
    {
        IgnoreContext { general, tool }
    }

    /// The rules of a run, from the text of each file of rules that is
    /// there. An absent file gives no set of rules.
    pub fn load(general: Option<&str>, tool: Option<&str>) -> (context: Self)
        ensures
            context@.general == loaded_rules(text_of(general)),
            context@.tool == loaded_rules(text_of(tool)),
    {
        let general = match general {
            Some(text) => Some(PatternSet::parse(text)),
            None => None,
        };
        let tool = match tool {
            Some(text) => Some(PatternSet::parse(text)),
            None => None,
        };
        IgnoreContext { general, tool }
    }

    /// Whether the run leaves `path` out, which is a directory or not as
    /// `is_dir` says. Without any rules nothing is left out.
    pub fn is_ignored(&self, path: &str, is_dir: bool) -> (ignored: bool)
        ensures
            ignored == self@.ignores(path@, is_dir),
            self@.general is None && self@.tool is None ==> !ignored,
    {
        if let Some(set) = &self.general {
            if set.is_ignored(path, is_dir) {
                return true;
            }
        }
        if let Some(set) = &self.tool {
            if set.is_ignored(path, is_dir) {
                return true;
            }
        }
        false
    }
}

} // verus!
