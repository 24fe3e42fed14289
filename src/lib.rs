//! Plan-execution engine: plan descriptor parsing, step outcome rules,
//! the per-run scheduler and the in-memory run registry.

pub mod text;
pub mod model;
pub mod parser;
pub mod scheduler;
pub mod clock;
pub mod executor;
pub mod history;
pub mod service;
pub mod commands;
pub mod cli;
