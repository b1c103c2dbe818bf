//! Verified core of a notes-to-time-series sync tool.
//!
//! The tool scans a vault of dated note files, reads the tag list from each
//! file's front matter, and records one timestamped point per taggable tag in
//! an external time-series sink, advancing incrementally from the last date
//! already recorded. This crate holds the logic of that run — the sync
//! window, file screening, tag expansion and the driver's decisions — as
//! verified functions over plain values; the surrounding I/O (directory
//! walking, file reading, the sink client) stays outside and hands values in.

pub mod date;
pub mod discover;
pub mod front_matter;
pub mod note;
pub mod path;
pub mod sync;
