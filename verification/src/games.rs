//! The games a session can keep score of.

pub mod session;
pub mod table;
pub mod tarok;
