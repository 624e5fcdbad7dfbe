//! A verified unified-diff library.
//!
//! Given two versions of a text file, the library splits them into lines,
//! computes a longest-common-subsequence edit script, groups the changes
//! into context-bounded hunks, and renders the result as unified-diff text
//! with addition/deletion counts and a size bound on the output.

pub mod codemod;
pub mod engine;
pub mod hunks;
pub mod render;
pub mod service;
pub mod text;
