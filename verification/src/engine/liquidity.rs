//! How much a taker can fill against a table of resting orders.

use vstd::prelude::*;
use crate::engine::orderbook::{accepts, opposite, rests, table_wf};
use crate::models::order::Order;

verus! {

/// What the resting order `o` offers to `taker`: its remainder, where it
/// is on the other side at a price that the taker accepts; else nothing.
pub open spec fn offer(o: Order, taker: Order) -> int {
    if o.side == opposite(taker.side) && accepts(taker, o) {
        o.remaining()
    } else {
        0
    }
}

/// The offers of all the orders in the table, added up.
pub open spec fn liquidity(orders: Map<u128, Order>, taker: Order) -> int
    decreases orders.dom().len(),
    when orders.dom().finite()
{
    if orders.dom().len() == 0 {
        0
    } else {
        let id = orders.dom().choose();
        offer(orders[id], taker) + liquidity(orders.remove(id), taker)
    }
}

/// The liquidity is the offer of any one order and the liquidity of the
/// others.
pub proof fn lemma_liquidity_remove(orders: Map<u128, Order>, taker: Order, id: u128)
    requires
        orders.dom().finite(),
        orders.contains_key(id),
    ensures
        liquidity(orders, taker) == offer(orders[id], taker) + liquidity(orders.remove(id), taker),
    decreases orders.dom().len(),
{
    let c = orders.dom().choose();
    if c != id {
        let without_c = orders.remove(c);
        let without_id = orders.remove(id);
        lemma_liquidity_remove(without_c, taker, id);
        lemma_liquidity_remove(without_id, taker, c);
        assert(without_c.remove(id) =~= without_id.remove(c));
    }
}

/// Putting an order into the table under a new identifier adds its offer.
pub proof fn lemma_liquidity_insert(orders: Map<u128, Order>, taker: Order, id: u128, o: Order)
    requires
        orders.dom().finite(),
        !orders.contains_key(id),
    ensures
        liquidity(orders.insert(id, o), taker) == offer(o, taker) + liquidity(orders, taker),
{
    lemma_liquidity_remove(orders.insert(id, o), taker, id);
    assert(orders.insert(id, o).remove(id) =~= orders);
}

/// Where every order rests, the liquidity is not negative.
pub proof fn lemma_liquidity_not_negative(orders: Map<u128, Order>, taker: Order)
    requires
        orders.dom().finite(),
        table_wf(orders),
    ensures
        liquidity(orders, taker) >= 0,
    decreases orders.dom().len(),
{
    if orders.dom().len() != 0 {
        let c = orders.dom().choose();
        assert(orders.contains_key(c));
        assert(rests(orders[c], c));
        assert forall|id: u128| #[trigger] orders.remove(c).contains_key(id) implies rests(
            orders.remove(c)[id],
            id,
        ) by {
            assert(orders.contains_key(id));
        }
        lemma_liquidity_not_negative(orders.remove(c), taker);
    }
}

/// Where the taker accepts no order of the other side, there is no
/// liquidity.
pub proof fn lemma_liquidity_none(orders: Map<u128, Order>, taker: Order)
    requires
        orders.dom().finite(),
        forall|id: u128| #[trigger]
            orders.contains_key(id) && orders[id].side == opposite(taker.side) ==> !accepts(
                taker,
                orders[id],
            ),
    ensures
        liquidity(orders, taker) == 0,
    decreases orders.dom().len(),
{
    if orders.dom().len() != 0 {
        let c = orders.dom().choose();
        assert(orders.contains_key(c));
        assert forall|id: u128| #[trigger]
            orders.remove(c).contains_key(id) && orders.remove(c)[id].side == opposite(
                taker.side,
            ) implies !accepts(taker, orders.remove(c)[id]) by {
            assert(orders.contains_key(id));
        }
        lemma_liquidity_none(orders.remove(c), taker);
    }
}

} // verus!
