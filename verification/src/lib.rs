//! Periodic command watcher: difference highlighting, terminal line layout
//! and run scheduling, with machine-checked contracts.

pub mod app;
pub mod cli;
pub mod config;
pub mod diff;
pub mod exec;
pub mod input;
pub mod interval;
pub mod layout_laws;
pub mod render;
pub mod terminal;
pub mod text;

pub use crate::config::{ColorMode, Config, DifferencesMode};
