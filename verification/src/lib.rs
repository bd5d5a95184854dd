//! A verified interpreter for an eight-instruction, tape-based esoteric
//! language: a lexer that turns source text into a command sequence, an
//! up-front loop-bracket balance check, and a fetch-execute engine over a
//! fixed 30,000-cell circular tape of wrapping bytes.

pub mod balance;
pub mod command;
pub mod laws;
pub mod machine;
pub mod text;
