pub mod delta_hedge;
