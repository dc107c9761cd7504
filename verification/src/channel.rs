//! The channels through which users are reached.

pub mod cli;
pub mod dingtalk;
