//! The instruction set, as handed over by a parser.

pub mod types;
