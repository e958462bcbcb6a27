//! A local metadata index for files: the rules of its watcher pipeline, its store
//! and its backups, with their contracts.
//!
//! Nothing here reads a directory, a socket or a database. The functions take what
//! was read and say what is to be written; the program around the library does
//! the reading and the writing.
//!
//! - [`watcher`]: the watcher's lifecycle, the debouncer and the reconstruction of
//!   renames.
//! - [`db`]: migrations, tag paths and the tag forest, patterns, renames of files
//!   and directories.
//! - [`query`] and [`exec`]: the full-text expression for a user's query, the
//!   substring fallback, and the commands run on what was found.
//! - [`backup`]: names, listing and pruning of backups.
//! - [`scan`], [`tagging`], [`config`], [`utils`]: walking a tree, selecting files
//!   by glob, resolving the store's path, paths as stored.
//! - [`cli`]: the commands and what they decide before anything is done.
//! - [`text`]: strings as sequences of characters.

pub mod backup;
pub mod cli;
pub mod config;
pub mod db;
pub mod error;
pub mod exec;
pub mod query;
pub mod scan;
pub mod tagging;
pub mod text;
pub mod utils;
pub mod watcher;
