//! The command line: what is shown, what is asked and what is understood.
pub mod args;
pub mod format;
pub mod interactive;
pub mod progress;
pub mod table;
pub mod width;
