//! Finds version-control working directories beneath a starting path and
//! labels each with the branch that is checked out in it.
//!
//! The library holds the decisions: how a directory listing is classified,
//! how the level-by-level search proceeds, how a head pointer is read, and
//! how settings are edited. Reading the disk is left to the caller, who hands
//! the library what was read.

pub mod text;
pub mod gitseek;
pub mod config;
pub mod disk;
pub mod args;
