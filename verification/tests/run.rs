use flatten::context::IgnoreContext;
use flatten::run::{plan, Decision, FileEntry, FlattenRun};

fn file(path: &str) -> FileEntry {
    FileEntry::new(path, true).expect("a relative path")
}

fn dir(path: &str) -> FileEntry {
    FileEntry::new(path, false).expect("a relative path")
}

fn copy(name: &str) -> Decision {
    Decision::Copy(String::from(name))
}

#[test]
fn entry_must_be_relative() {
    assert!(FileEntry::new("a/b.txt", true).is_some());
    assert!(FileEntry::new("", false).is_some());
    assert!(FileEntry::new("/etc/passwd", true).is_none());
    assert!(FileEntry::new("a//b", true).is_none());
    let e = file("a/b.txt");
    assert_eq!(e.relative(), "a/b.txt");
    assert!(e.is_file());
    assert!(!dir("a").is_file());
}

#[test]
fn ignore_files_are_never_stored() {
    let context = IgnoreContext::load(None, None);
    let mut run = FlattenRun::new();
    assert_eq!(run.step(&context, "flattened", &file(".gitignore")), Decision::Reserved);
    assert_eq!(run.step(&context, "flattened", &file(".flattenignore")), Decision::Reserved);
    assert_eq!(run.step(&context, "flattened", &file("sub/.gitignore")), Decision::Reserved);
    assert_eq!(run.step(&context, "flattened", &file("sub/dir/.flattenignore")), Decision::Reserved);
    assert_eq!(run.processed(), 0);
    assert_eq!(run.step(&context, "flattened", &file("x.gitignore")), copy("x.gitignore"));
}

#[test]
fn ignore_files_are_reserved_even_when_rules_keep_them() {
    let context = IgnoreContext::load(Some("*\n!.gitignore\n"), None);
    let mut run = FlattenRun::new();
    assert_eq!(run.step(&context, "flattened", &file(".gitignore")), Decision::Reserved);
    assert_eq!(run.step(&context, "flattened", &file("a.txt")), Decision::Ignored);
}

#[test]
fn destination_entries_are_never_stored() {
    let context = IgnoreContext::load(None, None);
    let mut run = FlattenRun::new();
    assert_eq!(run.step(&context, "flattened", &dir("flattened")), Decision::NotAFile);
    assert_eq!(run.step(&context, "flattened", &file("flattened/a.txt")), Decision::InDestination);
    assert_eq!(run.step(&context, "flattened", &file("flattened/sub/b.txt")), Decision::InDestination);
    assert_eq!(run.step(&context, "flattened", &file("flattened")), Decision::InDestination);
    assert_eq!(run.processed(), 0);
    assert_eq!(run.step(&context, "flattened", &file("flattened2/a.txt")), copy("flattened2_a.txt"));
    assert_eq!(run.step(&context, "flattened", &file("src/flattened/a.txt")), copy("src_flattened_a.txt"));
    assert_eq!(run.processed(), 2);
}

#[test]
fn directories_are_passed_over() {
    let context = IgnoreContext::load(Some("src/\n"), None);
    let mut run = FlattenRun::new();
    assert_eq!(run.step(&context, "flattened", &dir("")), Decision::NotAFile);
    assert_eq!(run.step(&context, "flattened", &dir("src")), Decision::NotAFile);
    assert_eq!(run.step(&context, "flattened", &dir("docs")), Decision::NotAFile);
    assert_eq!(run.processed(), 0);
}

#[test]
fn a_file_at_the_root_keeps_its_underscore() {
    let context = IgnoreContext::load(None, None);
    let decisions = plan(&context, "flattened", &vec![file("_a.txt")]);
    assert_eq!(decisions, vec![copy("_a.txt")]);
}

#[test]
fn ignored_files_are_reported_and_not_counted() {
    let context = IgnoreContext::load(Some("*.log\n"), Some("target/\n"));
    let mut run = FlattenRun::new();
    assert_eq!(run.step(&context, "flattened", &file("a.log")), Decision::Ignored);
    assert_eq!(run.step(&context, "flattened", &file("target/debug/app")), Decision::Ignored);
    assert_eq!(run.step(&context, "flattened", &file("src/main.rs")), copy("src_main.rs"));
    assert_eq!(run.processed(), 1);
}

#[test]
fn decide_goes_by_the_answer_it_is_given() {
    let mut run = FlattenRun::new();
    assert_eq!(run.decide("flattened", &file("a.txt"), true), Decision::Ignored);
    assert_eq!(run.decide("flattened", &file("a.txt"), false), copy("a.txt"));
    assert_eq!(run.decide("flattened", &file("a.txt"), false), copy("a_1.txt"));
    assert_eq!(run.decide("flattened", &dir("d"), true), Decision::NotAFile);
    assert_eq!(run.decide("flattened", &file("flattened/x"), true), Decision::InDestination);
    assert_eq!(run.decide("flattened", &file(".gitignore"), true), Decision::Reserved);
    assert_eq!(run.decide("flattened", &file(".gitignore"), false), Decision::Reserved);
    assert_eq!(run.processed(), 2);
}

#[test]
fn colliding_files_are_all_stored() {
    let context = IgnoreContext::load(None, None);
    let entries = vec![
        file("a_foo.txt"),
        dir("a"),
        file("a/foo.txt"),
        file("a_foo.txt"),
        file("_foo.txt"),
        dir("_"),
        file("_/foo.txt"),
    ];
    let decisions = plan(&context, "flattened", &entries);
    assert_eq!(
        decisions,
        vec![
            copy("a_foo.txt"),
            Decision::NotAFile,
            copy("a_foo_1.txt"),
            copy("a_foo_2.txt"),
            copy("_foo.txt"),
            Decision::NotAFile,
            copy("__foo.txt"),
        ]
    );
}

fn tree() -> Vec<FileEntry> {
    vec![
        dir(""),
        file(".flattenignore"),
        file(".gitignore"),
        file("README.md"),
        file("a_x.txt"),
        dir("a"),
        file("a/x.txt"),
        file("a/debug.log"),
        dir("node_modules"),
        file("node_modules/pkg/index.js"),
        dir("src"),
        file("src/main.rs"),
        file("src/keep.log"),
        file("src_main.rs"),
    ]
}

#[test]
fn a_whole_run() {
    let context = IgnoreContext::load(Some("node_modules/\n*.log\n!keep.log\n"), Some("# none\n"));
    let decisions = plan(&context, "flattened", &tree());
    assert_eq!(
        decisions,
        vec![
            Decision::NotAFile,
            Decision::Reserved,
            Decision::Reserved,
            copy("README.md"),
            copy("a_x.txt"),
            Decision::NotAFile,
            copy("a_x_1.txt"),
            Decision::Ignored,
            Decision::NotAFile,
            Decision::Ignored,
            Decision::NotAFile,
            copy("src_main.rs"),
            copy("src_keep.log"),
            copy("src_main_1.rs"),
        ]
    );
}

#[test]
fn two_runs_decide_alike() {
    let first = plan(
        &IgnoreContext::load(Some("*.log\n!keep.log\n"), None),
        "flattened",
        &tree(),
    );
    let second = plan(
        &IgnoreContext::load(Some("*.log\n!keep.log\n"), None),
        "flattened",
        &tree(),
    );
    assert_eq!(first, second);
}

#[test]
fn what_an_earlier_run_wrote_changes_nothing() {
    let context = IgnoreContext::load(Some("*.log\n"), None);
    let clean = plan(&context, "flattened", &tree());

    let mut dirty = tree();
    dirty.insert(3, dir("flattened"));
    dirty.insert(4, file("flattened/README.md"));
    dirty.insert(5, file("flattened/a_x.txt"));
    dirty.push(file("flattened/src_main.rs"));
    let again = plan(&context, "flattened", &dirty);

    let stored = |decisions: &Vec<Decision>| -> Vec<String> {
        let mut names = Vec::new();
        for d in decisions {
            if let Decision::Copy(name) = d {
                names.push(name.clone());
            }
        }
        names
    };
    assert_eq!(stored(&clean), stored(&again));
    assert_eq!(again[4], Decision::InDestination);
    assert_eq!(again[5], Decision::InDestination);
    assert_eq!(again[again.len() - 1], Decision::InDestination);
}

#[test]
fn names_of_a_run_are_distinct() {
    let context = IgnoreContext::load(None, None);
    let entries = vec![
        file("a/b/c"),
        file("a/b_c"),
        file("a_b/c"),
        file("a_b_c"),
        file("a_b_c_1"),
        file("_a_b_c"),
        file("x.y"),
        file("x_1.y"),
        file("x.y"),
    ];
    let decisions = plan(&context, "flattened", &entries);
    let mut names: Vec<String> = Vec::new();
    for d in &decisions {
        match d {
            Decision::Copy(name) => {
                assert!(!names.contains(name));
                names.push(name.clone());
            }
            other => panic!("not stored: {:?}", other),
        }
    }
    assert_eq!(
        names,
        vec!["a_b_c", "a_b_c_1", "a_b_c_2", "a_b_c_3", "a_b_c_1_1", "_a_b_c", "x.y", "x_1.y", "x_2.y"]
    );
}

#[test]
fn step_by_step_is_the_plan() {
    let context = IgnoreContext::load(Some("*.log\n"), None);
    let entries = tree();
    let planned = plan(&context, "flattened", &entries);
    let mut run = FlattenRun::new();
    let mut stored = 0;
    for (i, e) in entries.iter().enumerate() {
        let d = run.step(&context, "flattened", e);
        if let Decision::Copy(_) = d {
            stored += 1;
        }
        assert_eq!(d, planned[i]);
        assert_eq!(run.processed(), stored);
    }
}
