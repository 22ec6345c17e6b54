//! Pattern matching code generation and instruction parsing for Souper
//! optimizations lowered to Cretonne.

pub mod matcher;
pub mod parser;
mod text;
pub mod balance;
