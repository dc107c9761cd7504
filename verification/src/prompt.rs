//! Prompts: their texts and how they are put together.

pub mod context;
pub mod images;
pub mod nudge_loader;
pub mod prompt_store;
pub mod sections;
