pub mod order;
pub mod trade;
pub mod account;
