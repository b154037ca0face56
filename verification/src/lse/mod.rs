//! London Strategic Edge market data.
//!
//! A provider of prices for FX, equities, ETFs, crypto, commodities, indices and futures. The data
//! that it serves may be used but not redistributed.
//!
//! Properties of the data that mislead if they are assumed away:
//!
//! - FX candles are built from the bid, not from the mid or the last trade.
//! - FX candles have no volume, which is modelled as `None`. A published zero stays a zero.
//! - Non-trading days come as flat daily bars, while intraday bars are sparse.
//! - The tick schema of an export varies by dataset and is resolved from its columns.

pub mod backtest;
pub mod dataset;
pub mod decoding;
pub mod download;
pub mod error;
pub mod export;
pub mod historical;
pub mod live;
pub mod parquet;
pub mod quota;
pub mod quote;
pub mod resume;
pub mod subscription;
pub mod tick;
pub mod transformer;
pub mod vault;
