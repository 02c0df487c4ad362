pub mod types;
pub mod slippage;
pub mod price_impact;
pub mod liquidity_pool;
pub mod amm;
