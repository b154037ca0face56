//! Market streams.

pub mod merge;
