//! What the commands of a chat decide, apart from talking to the chat.

pub mod end_game;
pub mod register;
