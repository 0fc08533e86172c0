//! A plain score table, for any game in which rounds are told as names and
//! points.

pub mod game;
pub mod html_helper;
