//! Massive market data: historical aggregates, trades and quotes over a paginated REST interface.

pub mod error;
pub mod pagination;
pub mod rest;
