//! The gateway: takes messages from many connections and hands each to one of
//! several instances.

pub mod config;
pub mod downstream;
pub mod upstream;
