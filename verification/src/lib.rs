//! Score keeping for card-game sessions: round lines are read, checked against
//! the rules of Tarok, turned into per-player points and folded into ledgers
//! that a report can be drawn from at any time.

pub mod controllers;
pub mod games;
pub mod models;
pub mod naming;
pub mod text;
