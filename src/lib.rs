//! Finds tagged annotations ("todo", "note", ...) in source-code comments,
//! optionally restricted to the lines that a unified diff marks as added or
//! modified.
pub mod comments;
pub mod hunks;
pub mod input;
pub mod tags;
