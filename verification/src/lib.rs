//! Flattening of a directory tree into one directory: which files are kept,
//! and under which name each is stored.
//!
//! The files of a tree are copied into a single directory. Rules in the
//! manner of `.gitignore` say which files are left out; a file that is kept
//! gets a name made of its path, and a number where that name is taken.
//! This library decides all of that on plain values. Walking the tree and
//! copying the files is left to the program that uses it.

pub mod context;
pub mod decimal;
pub mod lines;
pub mod matcher;
pub mod name;
pub mod path;
pub mod pattern;
pub mod run;
pub mod seen;
pub mod text;

pub use context::IgnoreContext;
pub use name::flatten_name;
pub use path::should_skip_file;
pub use pattern::PatternSet;
pub use run::{plan, Decision, FileEntry, FlattenRun};
pub use seen::SeenNames;
