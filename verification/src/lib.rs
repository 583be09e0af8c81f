//! Rolling statistics over streaming samples.
//!
//! A [`buffer::TradingDataBuffer`] keeps a bounded FIFO window of samples
//! and maintains running aggregates incrementally; a
//! [`service::TradingDataService`] keeps, per symbol, one such buffer for
//! each of eight window-size tiers. Samples are carried as 64-bit IEEE 754
//! bit patterns; see [`sample`].

pub mod buffer;
pub mod sample;
pub mod service;

pub use buffer::StatsResponse;
pub use buffer::TradingDataBuffer;
pub use service::TradingDataService;
pub use service::TradingError;
