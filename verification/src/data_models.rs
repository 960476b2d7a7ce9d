pub mod coinbase;
pub mod fixed_point;
pub mod kalshi;
pub mod tick;
