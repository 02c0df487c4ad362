//! Trading core of an exchange: a price-time priority order book and a
//! constant-product market maker over exact decimal amounts.

pub mod decimal;
pub mod platform;
pub mod utils;
pub mod models;
pub mod engine;
pub mod market_maker;
