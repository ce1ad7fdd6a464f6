use flatten::context::IgnoreContext;
use flatten::pattern::{excludes, PatternSet};

fn set(text: &str) -> PatternSet {
    PatternSet::parse(text)
}

#[test]
fn last_matching_rule_wins() {
    let rules = set("*.log\n!keep.log\n");
    assert!(!rules.is_ignored("keep.log", false));
    assert!(rules.is_ignored("other.log", false));

    let reversed = set("!keep.log\n*.log\n");
    assert!(reversed.is_ignored("keep.log", false));
    assert!(reversed.is_ignored("other.log", false));
}

#[test]
fn negated_rule_keeps_important_log() {
    let rules = set("*.log\n!important.log");
    assert!(!rules.is_ignored("important.log", false));
    assert!(!rules.is_ignored("logs/important.log", false));
    assert!(rules.is_ignored("debug.log", false));
}

#[test]
fn anchored_rule_matches_at_the_root_only() {
    let anchored = set("/build\n");
    assert!(anchored.is_ignored("build", false));
    assert!(anchored.is_ignored("build", true));
    assert!(!anchored.is_ignored("src/build", false));
    assert!(!anchored.is_ignored("src/build", true));

    let floating = set("build\n");
    assert!(floating.is_ignored("build", false));
    assert!(floating.is_ignored("src/build", false));
    assert!(floating.is_ignored("a/b/build", true));
}

#[test]
fn ignored_directory_takes_everything_below_it() {
    let rules = set("node_modules/\n");
    assert!(rules.is_ignored("node_modules/pkg/index.js", false));
    assert!(rules.is_ignored("node_modules/a/b/c/d.txt", false));
    assert!(rules.is_ignored("web/node_modules/pkg/index.js", false));
    assert!(rules.is_ignored("node_modules", true));
    assert!(!rules.is_ignored("src/index.js", false));
    assert!(!rules.is_ignored("node_modules.txt", false));
}

#[test]
fn directory_rule_does_not_match_a_file_of_that_name() {
    let rules = set("build/\n");
    assert!(rules.is_ignored("build", true));
    assert!(!rules.is_ignored("build", false));
    assert!(rules.is_ignored("build/out.o", false));
    assert!(rules.is_ignored("sub/build", true));
    assert!(!rules.is_ignored("sub/build", false));
}

#[test]
fn exact_descendant_under_ignored_directory() {
    let rules = set("logs/\n!logs/keep.txt\n");
    assert!(!rules.is_ignored("logs/keep.txt", false));
    assert!(rules.is_ignored("logs/drop.txt", false));
}

#[test]
fn star_stops_at_a_separator() {
    let rules = set("/src/*.rs\n");
    assert!(rules.is_ignored("src/main.rs", false));
    assert!(!rules.is_ignored("src/bin/main.rs", false));
    assert!(!rules.is_ignored("main.rs", false));
}

#[test]
fn double_star_crosses_separators() {
    let rules = set("/src/**/*.rs\n");
    assert!(rules.is_ignored("src/main.rs", false));
    assert!(rules.is_ignored("src/bin/main.rs", false));
    assert!(rules.is_ignored("src/a/b/c/main.rs", false));
    assert!(!rules.is_ignored("lib/main.rs", false));
}

#[test]
fn question_mark_is_one_character() {
    let rules = set("file?.txt\n");
    assert!(rules.is_ignored("file1.txt", false));
    assert!(rules.is_ignored("dir/fileA.txt", false));
    assert!(!rules.is_ignored("file.txt", false));
    assert!(!rules.is_ignored("file12.txt", false));
    assert!(!rules.is_ignored("file/.txt", false));
}

#[test]
fn character_class_matches_its_members() {
    let rules = set("data[0-3].csv\n*.[oa]\n");
    assert!(rules.is_ignored("data0.csv", false));
    assert!(rules.is_ignored("data3.csv", false));
    assert!(!rules.is_ignored("data4.csv", false));
    assert!(rules.is_ignored("lib/x.o", false));
    assert!(rules.is_ignored("x.a", false));
    assert!(!rules.is_ignored("x.c", false));
}

#[test]
fn comments_and_blank_lines_are_no_rules() {
    let rules = set("# *.txt\n\n   \n#\n");
    assert!(!rules.is_ignored("a.txt", false));
    assert!(!rules.is_ignored("# *.txt", false));
    assert!(!rules.is_ignored("#", false));

    let empty = set("");
    assert!(!empty.is_ignored("a.txt", false));
    assert!(!empty.is_ignored("", false));
}

#[test]
fn malformed_line_does_not_disable_the_rest() {
    let rules = set("*.log\na[z-a]b\n*.tmp\n");
    assert!(rules.is_ignored("x.log", false));
    assert!(rules.is_ignored("x.tmp", false));
    assert!(!rules.is_ignored("x.txt", false));
    assert!(!rules.is_ignored("a[z-a]b", false));
}

#[test]
fn lines_may_end_with_carriage_returns() {
    let rules = set("*.log\r\n!keep.log\r\n");
    assert!(rules.is_ignored("a.log", false));
    assert!(!rules.is_ignored("keep.log", false));
}

#[test]
fn own_rule_and_directories_above_add_up() {
    assert!(!excludes(None, None));
    assert!(excludes(Some((0, true)), None));
    assert!(!excludes(Some((0, false)), None));
    assert!(excludes(None, Some(0)));
    assert!(excludes(Some((2, true)), Some(5)));
    assert!(excludes(Some((5, true)), Some(2)));
    assert!(excludes(Some((0, false)), Some(1)));
    assert!(!excludes(Some((1, false)), Some(0)));
}

#[test]
fn negation_before_the_directory_rule_does_not_keep() {
    let rules = set("!logs/keep.txt\nlogs/\n");
    assert!(rules.is_ignored("logs/keep.txt", false));
    assert!(rules.is_ignored("logs/drop.txt", false));
    assert_eq!(rules.last_match("logs/keep.txt", false), Some((0, false)));
    assert_eq!(rules.latest_exclusion_above("logs/keep.txt"), Some(1));

    let later = set("logs/\n!logs/keep.txt\n");
    assert!(!later.is_ignored("logs/keep.txt", false));
    assert!(later.is_ignored("logs/drop.txt", false));
    assert_eq!(later.last_match("logs/keep.txt", false), Some((1, false)));
    assert_eq!(later.latest_exclusion_above("logs/keep.txt"), Some(0));
}

#[test]
fn kept_directory_does_not_shield_from_one_excluded_above() {
    let rules = set("a/\n!a/b/\n");
    assert!(rules.is_ignored("a/b/c.txt", false));
    assert!(rules.is_ignored("a/x.txt", false));
    assert_eq!(rules.last_match("a/b", true), Some((1, false)));
    assert_eq!(rules.last_match("a", true), Some((0, true)));
    assert_eq!(rules.last_match("a/b/c.txt", false), None);
    assert_eq!(rules.latest_exclusion_above("a/b/c.txt"), Some(0));
    assert!(!rules.is_ignored("b/c.txt", false));
}

#[test]
fn last_match_is_the_last_rule_that_matches() {
    let rules = set("*.log\n# comment\n\n*.txt\n!keep.log\n*.l?g\n");
    assert_eq!(rules.len(), 4);
    assert_eq!(rules.last_match("a.log", false), Some((3, true)));
    assert_eq!(rules.last_match("keep.log", false), Some((3, true)));
    assert_eq!(rules.last_match("a.txt", false), Some((1, true)));
    assert_eq!(rules.last_match("a.rs", false), None);
    let short = set("*.log\n!keep.log\n");
    assert_eq!(short.last_match("keep.log", false), Some((1, false)));
    assert_eq!(short.last_match("x/keep.log", false), Some((1, false)));
    assert_eq!(short.last_match("other.log", false), Some((0, true)));
}

#[test]
fn directories_above_are_asked_from_the_root_down() {
    let rules = set("/a/b/\nc/\n");
    assert_eq!(rules.latest_exclusion_above("a/b/c/d.txt"), Some(1));
    assert_eq!(rules.latest_exclusion_above("a/b/d.txt"), Some(0));
    assert_eq!(rules.latest_exclusion_above("a/d.txt"), None);
    assert_eq!(rules.latest_exclusion_above("a/b"), None);
    assert_eq!(rules.latest_exclusion_above("d.txt"), None);
    assert_eq!(rules.latest_exclusion_above(""), None);
    assert!(rules.is_ignored("a/b", true));
    assert!(!rules.is_ignored("a/b", false));
}

#[test]
fn rules_that_do_not_compile_alone_leave_the_others() {
    let rules = set("a[z-a]b\n*.tmp\n[\n");
    assert_eq!(rules.len(), 2);
    assert!(rules.is_ignored("x.tmp", false));
    assert!(rules.is_ignored("[", false));
    assert_eq!(set("").len(), 0);
    assert_eq!(set("#a\n \t \n\r\n").len(), 0);
    assert_eq!(set(" \n!x\n/y/\n").len(), 2);
}

#[test]
fn absent_files_ignore_nothing() {
    let context = IgnoreContext::load(None, None);
    assert!(!context.is_ignored("a.txt", false));
    assert!(!context.is_ignored("node_modules/x.js", false));
    let built = IgnoreContext::new(None, None);
    assert!(!built.is_ignored("a.txt", false));
}

#[test]
fn either_file_excludes() {
    let context = IgnoreContext::load(Some("*.log\n"), Some("*.tmp\n"));
    assert!(context.is_ignored("a.log", false));
    assert!(context.is_ignored("a.tmp", false));
    assert!(!context.is_ignored("a.txt", false));

    let only_general = IgnoreContext::load(Some("*.log\n"), None);
    assert!(only_general.is_ignored("a.log", false));
    assert!(!only_general.is_ignored("a.tmp", false));

    let only_tool = IgnoreContext::load(None, Some("*.tmp\n"));
    assert!(!only_tool.is_ignored("a.log", false));
    assert!(only_tool.is_ignored("a.tmp", false));
}

#[test]
fn second_file_cannot_take_back_what_the_first_excludes() {
    let context = IgnoreContext::load(Some("*.log\n"), Some("!*.log\n"));
    assert!(context.is_ignored("a.log", false));
    let other_way = IgnoreContext::load(Some("!*.log\n"), Some("*.log\n"));
    assert!(other_way.is_ignored("a.log", false));
}

#[test]
fn context_from_sets_judges_like_the_sets() {
    let context = IgnoreContext::new(
        Some(PatternSet::parse("/build\n")),
        Some(PatternSet::parse("*.bak\n")),
    );
    assert!(context.is_ignored("build", false));
    assert!(!context.is_ignored("src/build", false));
    assert!(context.is_ignored("src/old.bak", false));
}

#[test]
fn rules_are_judged_from_the_root_of_the_tree() {
    let rules = set("/docs/*.md\nsrc/gen/\n");
    assert!(rules.is_ignored("docs/a.md", false));
    assert!(!rules.is_ignored("x/docs/a.md", false));
    assert!(rules.is_ignored("src/gen/out.rs", false));
    assert!(!rules.is_ignored("lib/src/gen/out.rs", false));
    assert!(rules.is_ignored("./docs/a.md", false));
}

#[test]
fn every_relative_path_can_be_judged() {
    let rules = set("*.log\n/build\nnode_modules/\n**/tmp/**\n!keep.log\n");
    let paths = [
        "", ".", "..", "./", "./a", "./a/b.log", "a/", "a/b/", "a/./b", "a/../b", "../x.log",
        "a", "a.log", "build", "x/build", "node_modules/x", "tmp/x", "a/tmp/b/c", "keep.log",
        ".hidden", ".a/.b", "é/ü.log", "a b/c d.log", "\\", "a\\b",
    ];
    for p in paths {
        assert!(flatten::path::check_relative(p), "{:?}", p);
        let file = rules.is_ignored(p, false);
        let dir = rules.is_ignored(p, true);
        assert_eq!(file, rules.is_ignored(p, false), "{:?}", p);
        assert_eq!(dir, rules.is_ignored(p, true), "{:?}", p);
    }
    assert!(rules.is_ignored("./a/b.log", false));
    assert!(rules.is_ignored("../x.log", false));
    assert!(!rules.is_ignored("./keep.log", false));
    assert!(rules.is_ignored("a/tmp/b/c", false));
}

#[test]
fn the_same_text_gives_the_same_answers() {
    let text = "*.o\n!main.o\n/out/\nsrc/**/gen_*.rs\n";
    let first = set(text);
    let second = set(text);
    let paths = ["a.o", "main.o", "out/x", "lib/out/x", "src/a/b/gen_x.rs", "src/gen_y.rs", "x"];
    for p in paths {
        assert_eq!(first.is_ignored(p, false), second.is_ignored(p, false));
        assert_eq!(first.is_ignored(p, true), second.is_ignored(p, true));
    }
}
