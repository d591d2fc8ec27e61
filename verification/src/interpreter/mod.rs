//! The execution engine.

pub mod commands;
pub mod laws;
pub mod lemmas;
pub mod model;
pub mod scheduler;
pub mod step;
pub mod trusted;
pub mod types;
