//! Core engine of a workspace manager that keeps a directory tree of git
//! checkouts in sync with a declarative set of provider sources.
//!
//! The library holds the verified logic: merging fetched repository lists
//! into a canonical lockfile snapshot, planning the per-repository commands
//! of a batch run, collecting batch failures, selecting configuration files,
//! and deciding which directories the archive scanner may relocate.
//! Process spawning, network fetches and file I/O live outside the library
//! and exchange plain values with it.

pub mod archive;
pub mod commands;
pub mod config;
pub mod executor;
pub mod graphql;
pub mod lockfile;
pub mod order;
pub mod progress;
pub mod providers;
pub mod repository;
pub mod utils;
