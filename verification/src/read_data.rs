pub mod data_types;
pub mod read_kalshi;
pub mod read_underlying;
pub mod record_chunks;
