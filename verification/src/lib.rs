//! Duplicate-file detection and safe removal.
//!
//! The engine works on plain values.  A scan hands it the entries of a
//! directory tree (`scanner`); it partitions the files by size, digests the
//! candidates with SHA-256 (`digest`) and groups them by size and digest
//! (`hasher`, with the facts about the grouping in `grouping`); and it drives
//! the removal of all but one copy of each group through a small state
//! machine (`reporter`).  Walking directories, reading files, prompting and
//! deleting are left to the caller.

pub mod cli;
pub mod digest;
pub mod grouping;
pub mod hasher;
pub mod reporter;
pub mod response;
pub mod scanner;
pub mod text;
pub mod ui;
