//! Repository logic for XDG autostart entries: parsing of `.desktop` files,
//! layered directory merging with user-over-system precedence, and rendering
//! of the files written back for saves and deletions.
//!
//! All file and environment access stays with the caller; every function here
//! works on plain values and is verified.

pub mod entry;
pub mod laws;
pub mod merge;
pub mod mutate;
pub mod naming;
pub mod parse;
pub mod paths;
pub mod render;
pub mod text;
