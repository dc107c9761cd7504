//! How requests are handled.

pub mod builder;
pub mod bus;
pub mod config;
pub mod handler;
pub mod helpers;
pub mod history;
pub mod memory_filter;
pub mod prepare;
pub mod reaper;
pub mod save_turn;
pub mod session_lines;
pub mod session_manager;
pub mod term;
pub mod types;
