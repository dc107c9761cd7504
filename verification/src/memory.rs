//! What is remembered from one conversation to the next.

pub mod memory_store;
