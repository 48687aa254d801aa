//! Verified core of a Discord text-to-speech bot: message templates,
//! the reading dictionary, per-guild channel and speaker tables, and the
//! decisions the bot makes on Discord events.

pub mod cache;
pub mod dictionary;
pub mod discord;
pub mod events;
pub mod laws;
pub mod messages;
pub mod replies;
pub mod speaker;
pub mod store;
pub mod text;
pub mod tts;
pub mod voices;
