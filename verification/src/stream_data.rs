pub mod market_stream;
pub mod tick_multi_stream;
pub mod tick_multi_stream_dynamic;
pub mod tick_stream;
pub mod timers;
