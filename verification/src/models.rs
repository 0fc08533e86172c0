//! The people who play.

pub mod user;
