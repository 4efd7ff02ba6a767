//! The logic of a terminal UI that browses and runs Moon workspace tasks.

pub mod actions;
pub mod ansi;
pub mod app;
pub mod event_loop;
pub mod keys;
pub mod laws;
pub mod moon;
pub mod output;
pub mod runner;
pub mod runs;
pub mod shown;
pub mod terminal;
pub mod text;
pub mod ui;
pub mod updates;
