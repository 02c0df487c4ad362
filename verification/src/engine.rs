pub mod queue;
pub mod liquidity;
pub mod orderbook;
pub mod matching_engine;
