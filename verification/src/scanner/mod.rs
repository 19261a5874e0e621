//! Scanning: what the watcher does with the files it finds, and what it
//! reads out of them.
pub mod analyze;
pub mod config;
pub mod extract;
pub mod reconcile;
pub mod watch;
