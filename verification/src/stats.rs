//! `stats`: one-scan aggregates per session and the scope total across sessions.

pub mod tally;
pub mod lines;
pub mod counts;
pub mod tokens;
pub mod session;
pub mod order;
pub mod scope;
pub mod render;
