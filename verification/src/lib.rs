//! An execution engine for a tape-machine language with several timelines.
//!
//! A program is a sequence of [`parser::types::Token`]s. It runs on a population of
//! [`interpreter::types::Timeline`]s, each with its own tape, cursors, undo log and
//! instruction pointer. A timeline takes one step at a time
//! ([`interpreter::types::Timeline::update`]); what a step asks of the population (a fork,
//! a removal, a transfer of cursors) comes back as a
//! [`interpreter::types::Command`] and is applied by
//! [`interpreter::types::BF5DContext::execute_command`]. A tick
//! ([`interpreter::types::BF5DContext::tick`]) lets every timeline take one step and then
//! applies the commands.
//!
//! Every executable function has a contract over the mathematical model in
//! [`interpreter::model`] and [`interpreter::scheduler`]; [`interpreter::laws`] proves what
//! follows from them. The three calls that are taken on trust are in
//! [`interpreter::trusted`].

pub mod interpreter;
pub mod parser;
