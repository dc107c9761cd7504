//! What the programs decide around the library's parts.

pub mod outbound;
pub mod startup;
