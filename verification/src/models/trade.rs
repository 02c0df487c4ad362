//! Executed trades.

use vstd::prelude::*;
use crate::decimal::Decimal;
use crate::models::order::Order;
use crate::platform::{now_nanos, random_id};

verus! {

/// One fill: the resting order that made it, at that order's price.
#[derive(Clone, Debug)]
pub struct Trade {
    pub id: u128,
    pub order_id: u128,
    pub price: Decimal,
    pub quantity: Decimal,
    pub created_at: i128,
}

impl Trade {
    /// The trade of `quantity` against `maker_order`, at the maker's price,
    /// with a fresh identifier and the current time.
    pub fn new(maker_order: &Order, _taker_order: &Order, quantity: Decimal) -> (t: Trade)
        ensures
            t.order_id == maker_order.id,
            t.price == maker_order.price,
            t.quantity == quantity,
    {
        Trade {
            id: random_id(),
            order_id: maker_order.id,
            price: maker_order.price,
            quantity,
            created_at: now_nanos(),
        }
    }
}

} // verus!
