//! Core of a Zellij plugin that shows, as a symbol in front of each tab's
//! name, what the AI coding agent running in that tab is doing.
//!
//! The library is a pure state machine: host events and pipe messages go
//! in, effects come out. Running the effects against the Zellij host is left
//! to the plugin shell around it.
pub mod activity;
pub mod installer;
pub mod laws;
pub mod model;
pub mod protocol;
pub mod state;
pub mod table;
pub mod text;
pub mod trace;
