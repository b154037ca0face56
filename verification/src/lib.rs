//! Market data, instrument indexing and engine state for a trading system, with the rules of each
//! component stated as contracts and proved.

pub mod calendar;
pub mod collection;
pub mod engine;
pub mod error;
pub mod exchange;
pub mod execution;
pub mod http;
pub mod index;
pub mod instrument;
pub mod json;
pub mod lse;
pub mod market;
pub mod massive;
pub mod streams;
pub mod text;
pub mod time;
