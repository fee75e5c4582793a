//! `show`: fetch specific records of one transcript by line, uuid or turn.

pub mod addr;
pub mod plan;
pub mod branch;
pub mod text;
pub mod settle;
