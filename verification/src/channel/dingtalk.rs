//! The bot in DingTalk.

pub mod ai_card;
pub mod bot;
pub mod credential;
pub mod gateway;
pub mod handler;
pub mod message;
