//! Teral's file-manager logic: names, paths, the FreeDesktop trash, tags, settings,
//! sessions and the bookkeeping of copy/move jobs, each stated and proved with Verus.
//!
//! Paths are raw Linux byte strings (`Vec<u8>`), so names that are not valid UTF-8
//! are kept byte for byte, in memory and in the files Teral writes: sessions, bookmarks
//! and tags store their paths in hexadecimal. Only text meant for people (labels,
//! status lines, error messages) shows such bytes as replacement characters.

pub mod command;
pub mod config;
pub mod details;
pub mod files;
pub mod navigation;
pub mod paths;
pub mod persistence;
pub mod places;
pub mod seqs;
pub mod session;
pub mod style;
pub mod tags;
pub mod text;
pub mod theme;
