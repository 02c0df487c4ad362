//! Why an order book operation fails.

use vstd::prelude::*;

verus! {

#[derive(Clone, Copy, Debug, PartialEq, Eq, Structural)]
pub enum OrderBookError {
    OrderNotFound,
    InsufficientQuantity,
    InvalidPrice,
}

impl OrderBookError {
    /// The words for the error.
    pub open spec fn text(self) -> Seq<char> {
        match self {
            OrderBookError::OrderNotFound => "Order not found"@,
            OrderBookError::InsufficientQuantity => "Insufficient quantity"@,
            OrderBookError::InvalidPrice => "Invalid price"@,
        }
    }

    /// The words for the error.
    pub fn message(&self) -> (s: &'static str)
        ensures
            s@ == self.text(),
    {
        match self {
            OrderBookError::OrderNotFound => "Order not found",
            OrderBookError::InsufficientQuantity => "Insufficient quantity",
            OrderBookError::InvalidPrice => "Invalid price",
        }
    }
}

} // verus!
