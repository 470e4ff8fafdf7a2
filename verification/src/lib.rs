//! Typed Tag File Manager: tag files and notes with typed labels, search them, and edit
//! tags, names and locations in one step.
//!
//! The crate holds the rules of the program. Reading the disk, running the database and
//! talking to the terminal are left to the binary that links it.

pub mod cache;
pub mod cache_search_sql;
pub mod cli;
pub mod col;
pub mod config;
pub mod db;
pub mod edit;
pub mod functions;
pub mod indexing;
pub mod indexing_laws;
pub mod item;
pub mod path;
pub mod plugins;
pub mod tag;
pub mod tag_laws;
pub mod text;
pub mod types;
