//! Candle aggregation of a live price feed into two timeframes, and the
//! viewport arithmetic that lays a scrollable window of candles onto a
//! drawing surface.
//!
//! Prices are integer cents, times are milliseconds since the Unix epoch,
//! and surface coordinates are whole pixels.

pub mod model;
pub mod view;
