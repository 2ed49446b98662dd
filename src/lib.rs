//! Dependency usage analysis: which declared packages a project never
//! imports, and which imported packages it never declares.
//!
//! - `resolve`: from an import specifier to the root package it names.
//! - `extract`: the specifiers of a source file, read by the swc parser.
//! - `walk`: which files of the tree are analysed (extensions, excluded
//!   directories, ignore patterns and ignore files).
//! - `names`: name sets as strictly ascending vectors.
//! - `check`: per-file usage, the used set, and the unused and missing
//!   dependencies, with the laws that relate them.
//! - `cli`: the options of a run and the check of the root directory.

pub mod check;
pub mod cli;
pub mod extract;
pub mod names;
pub mod resolve;
pub mod walk;
