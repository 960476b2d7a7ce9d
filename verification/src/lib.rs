//! Replays recorded market data through time-driven streams, and locates the
//! records that cover a derivative contract's lifetime.

pub mod data_models;
pub mod read_data;
pub mod strats;
pub mod stream_data;
