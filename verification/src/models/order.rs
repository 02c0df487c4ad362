//! Orders and their fill accounting.

use vstd::prelude::*;
use crate::decimal::Decimal;
use crate::platform::{now_nanos, random_id};

verus! {

#[derive(Clone, Copy, Debug, PartialEq, Eq, Structural)]
pub enum Side {
    Buy,
    Sell,
}

#[derive(Clone, Copy, Debug, PartialEq, Eq, Structural)]
pub enum OrderType {
    Limit,
    Market,
}

/// An order. Identifiers are 128-bit integers; times are nanoseconds since
/// the epoch.
#[derive(Clone, Debug)]
pub struct Order {
    pub id: u128,
    pub user_id: u128,
    pub symbol: String,
    pub side: Side,
    pub order_type: OrderType,
    pub price: Decimal,
    pub quantity: Decimal,
    pub filled_quantity: Decimal,
    pub timestamp: i128,
    pub created_at: i128,
    pub updated_at: i128,
}

impl Order {
    /// The fill accounting is in order: price, quantity and fill are
    /// amounts, and the fill is not negative and no more than was ordered.
    pub open spec fn wf(&self) -> bool {
        &&& self.price.wf()
        &&& self.quantity.wf()
        &&& self.filled_quantity.wf()
        &&& 0 <= self.filled_quantity@ <= self.quantity@
    }

    /// What is left to fill, in view units.
    pub open spec fn remaining(&self) -> int {
        self.quantity@ - self.filled_quantity@
    }

    /// A new order with nothing filled, a fresh identifier and the current
    /// time as its arrival time.
    pub fn new(
        user_id: u128,
        symbol: String,
        side: Side,
        order_type: OrderType,
        price: Decimal,
        quantity: Decimal,
    ) -> (o: Order)
        ensures
            o.user_id == user_id,
            o.symbol == symbol,
            o.side == side,
            o.order_type == order_type,
            o.price == price,
            o.quantity == quantity,
            o.filled_quantity.mantissa == 0,
            o.filled_quantity.scale == 0,
            o.filled_quantity@ == 0,
            o.created_at == o.timestamp,
            o.updated_at == o.timestamp,
    {
        let now: i128 = now_nanos();
        Order {
            id: random_id(),
            user_id,
            symbol,
            side,
            order_type,
            price,
            quantity,
            filled_quantity: Decimal::zero(),
            timestamp: now,
            created_at: now,
            updated_at: now,
        }
    }

    /// Quantity less what is filled, for a quantity and a fill that
    /// subtract without rounding.
    pub fn remaining_quantity(&self) -> (r: Decimal)
        requires
            self.quantity.subtracts_exactly(self.filled_quantity),
        ensures
            r.wf(),
            r@ == self.remaining(),
            r.scale <= self.quantity.wider_scale(self.filled_quantity),
            Some(r) == self.quantity.exact_difference(self.filled_quantity),
    {
        match self.quantity.minus_exact(self.filled_quantity) {
            Some(r) => r,
            None => {
                proof {
                    assert(false);
                }
                Decimal::zero()
            },
        }
    }

    /// Whether as much is filled as was ordered.
    pub fn is_filled(&self) -> (b: bool)
        requires
            self.quantity.wf(),
            self.filled_quantity.wf(),
        ensures
            b == (self.filled_quantity@ >= self.quantity@),
    {
        self.filled_quantity.ge(&self.quantity)
    }
}

} // verus!
