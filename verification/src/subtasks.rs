//! Subtasks: plans of dependent tasks and how they are run.

pub mod config;
pub mod engine;
pub mod protocol;
pub mod scheduler;
