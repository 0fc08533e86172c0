//! Tarok: what a round line may hold, what it is worth, and the ledgers of a
//! session.

pub mod enums;
pub mod game;
pub mod html_helper;
pub mod report;
pub mod rules;
pub mod sheets;
pub mod tokens;
