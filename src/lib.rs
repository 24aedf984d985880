//! A personal time log: each run appends one tab-separated line holding a
//! timestamp and the time elapsed since the most recent open entry.

pub mod command;
pub mod entry;
pub mod laws;
pub mod scan;
