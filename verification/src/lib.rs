//! Heuristic detection of unused Python functions.
//!
//! The library scans a materialized corpus of source lines, extracts
//! top-level `def` declarations by a line-oriented pattern, counts textual
//! occurrences of each candidate name across the whole corpus, and reports
//! candidates whose name occurs fewer than two times as possibly unused.

pub mod extract;
pub mod laws;
pub mod policy;
pub mod scan;
pub mod text;
