//! The state of the engine.

pub mod action;
pub mod connectivity;
pub mod instrument_data;
