//! Crew's channel routing, window addressing and chat-transcript logic.
pub mod botapi;
pub mod canvas;
pub mod channel;
pub mod complete;
pub mod drain;
pub mod find;
pub mod flash;
pub mod flow;
pub mod fold;
pub mod header;
pub mod message;
pub mod num;
pub mod telegram;
pub mod text;
