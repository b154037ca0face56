//! Setting up execution.

pub mod builder;
