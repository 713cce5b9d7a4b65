//! Gitignore-style exclusion rules read from one ignore file at a project root.
//!
//! `CodexIgnore` holds the rules of one ignore file and the absolute root they
//! apply under. Its queries resolve a path against the root, strip the root
//! off, and ask the glob engine of the `ignore` crate for a verdict; the last
//! rule that matches decides, and a directory that is excluded excludes what
//! lies below it.
pub mod compile;
pub mod engine;
pub mod matcher;
pub mod path;

pub use compile::CompileError;
pub use engine::Verdict;
pub use matcher::CodexIgnore;
