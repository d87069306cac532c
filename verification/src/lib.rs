//! fmap: a verified directory-tree visualizer core.
//!
//! The library scans an in-memory snapshot of a directory hierarchy into a
//! tree of directory nodes, filtering entries whose bare names occur in
//! caller-supplied ignore sets and aggregating per-directory file sizes and
//! counts, and renders such a tree as connector-based ASCII art.
//! Command-line tokenizing and the flat key/value configuration store's
//! string manipulation are verified here as well; all filesystem, terminal
//! and environment access lives with the callers.

pub mod commands;
pub mod config;
pub mod display;
pub mod os;
pub mod scan;
pub mod size_format;
pub mod text;
pub mod utils;
