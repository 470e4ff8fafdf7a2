//! The interactive mode: its state, its commands and what comes of them.
pub mod autocomplete;
pub mod command;
pub mod command_laws;
pub mod complete_laws;
pub mod dispatch;
pub mod menu;
pub mod runner;
pub mod state;
