pub use crate::stream_data::tick_multi_stream_dynamic::TickMultiStream;
