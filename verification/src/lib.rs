//! Survey of the version-controlled working directories below a root directory.
//!
//! The crate holds the rules of the survey: how a walk over directories stops
//! at a repository boundary, how the states of a repository's files fold into
//! six flags, and how the findings are laid out as a list, as a summary or as
//! a tree of path segments. Reading directories and repositories is left to
//! the caller, who hands over plain values.

pub mod flags;
pub mod repo;
pub mod shape;
pub mod summary;
pub mod text;
pub mod tree;
pub mod walk;
