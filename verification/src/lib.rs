//! Verified core of the TyClaw assistant.

pub mod agent;
pub mod channel;
pub mod control;
pub mod gateway;
pub mod json;
pub mod memory;
pub mod message;
pub mod orchestration;
pub mod order;
pub mod programs;
pub mod prompt;
pub mod seqs;
pub mod subtasks;
pub mod table;
pub mod text;
