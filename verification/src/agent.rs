//! The agent: the loop that talks to a model and runs the tools it asks for.

pub mod agent_loop;
pub mod compression;
pub mod diagnostics;
pub mod dispatch;
pub mod loop_helpers;
pub mod phase;
pub mod progress;
pub mod runtime;
pub mod summary;
pub mod tool_runner;
