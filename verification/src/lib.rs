//! Verified core of a control panel for rclone remotes.
//!
//! The library covers the text-level logic of the tool: resolving
//! configuration paths, parsing the INI-like remote configuration into
//! records, validating user submissions against a plugin's field schema,
//! synthesizing new configuration sections, and editing the scheduler's
//! job table. All file, process and UI work is left to the host that
//! embeds the library.

pub mod errors;
pub mod parser;
pub mod paths;
pub mod records;
pub mod schedule;
pub mod text;
pub mod validate;
pub mod writer;
