pub mod error;
pub mod lookup;
