//! Recursive directory traversal, verified.
//!
//! A traversal is configured with a root directory, an optional depth limit,
//! an optional pattern that selects files by their full path, an optional hook
//! that rewrites the path of every selected file, and an optional recovery
//! function that supplies a substitute path when a read fails.
//!
//! The library never touches the filesystem. It decides; the host reads. A
//! traversal advances level by level through two kinds of request (read
//! these directories; tell which of these entries are directories), and each
//! answer moves it to the next request, to the final list of paths, or to a
//! fatal error.
//!
//! - `path`: paths as bytes, and when they are text.
//! - `pattern`: regular expressions, compiled by the `regex` crate.
//! - `rules`: what the hook, the pattern and the recovery function make of
//!   one entry.
//! - `config`: the configuration and its builder.
//! - `walk`: the traversal, request by request.
//! - `laws`: what a whole traversal reports, proved against a model of the
//!   host.

pub mod path;
pub mod pattern;
pub mod rules;
pub mod walk;
pub mod config;
pub mod laws;

pub use config::{CollectFiles, CollectFilesConfigured, CollectFilesPrelude};
pub use path::PathName;
pub use walk::{collect_files, Fatal, Step};
