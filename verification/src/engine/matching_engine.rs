//! A matching engine for whole orders: an incoming order takes every
//! resting order of the other side whose price crosses its own, best price
//! first, and rests itself where it took none.

use vstd::prelude::*;
use priority_queue::PriorityQueue;
use std::collections::HashMap;
use crate::engine::orderbook::{lemma_priority_order, no_worse, opposite, priority_for, side_wf};
use crate::engine::queue::{
    queue_entries,
    queue_new,
    queue_peek,
    queue_push,
    queue_remove,
    Priority,
};
use crate::models::order::{Order, Side};

verus! {

broadcast use vstd::std_specs::hash::group_hash_axioms;

/// The prices cross: the buyer's price is at least the seller's.
pub open spec fn crosses(taker: Order, maker: Order) -> bool {
    match taker.side {
        Side::Buy => taker.price@ >= maker.price@,
        Side::Sell => taker.price@ <= maker.price@,
    }
}

/// The resting order would be taken by `taker`.
pub open spec fn taken_by(taker: Order, maker: Order) -> bool {
    maker.side == opposite(taker.side) && crosses(taker, maker)
}

/// Every order in the table is there under its own identifier, and its
/// price is an amount.
pub open spec fn engine_table_wf(orders: Map<u128, Order>) -> bool {
    forall|id: u128| #[trigger]
        orders.contains_key(id) ==> orders[id].id == id && orders[id].price.wf()
}

/// What adding `order` makes of the resting orders `before`, and which
/// orders it hands back: exactly those that `order` takes, each once, the
/// best first. They have left the table; `order` has come in where it took
/// none; the others are as before.
pub open spec fn added(
    before: Map<u128, Order>,
    order: Order,
    after: Map<u128, Order>,
    matches: Seq<Order>,
) -> bool {
    &&& forall|i: int|
        0 <= i < matches.len() ==> before.contains_key((#[trigger] matches[i]).id)
            && before[matches[i].id] == matches[i] && taken_by(order, matches[i])
    &&& forall|id: u128| #[trigger]
        before.contains_key(id) && taken_by(order, before[id]) ==> exists|i: int|
            0 <= i < matches.len() && (#[trigger] matches[i]).id == id
    &&& forall|i: int, j: int|
        0 <= i < j < matches.len() ==> (#[trigger] matches[i]).id != (#[trigger] matches[j]).id
            && no_worse(matches[i], matches[j])
    &&& after == if matches.len() == 0 {
        before.insert(order.id, order)
    } else {
        before.remove_keys(Set::new(|id: u128| before.contains_key(id) && taken_by(order, before[id])))
    }
}

pub struct MatchingEngine {
    buy_orders: PriorityQueue<u128, Priority>,
    sell_orders: PriorityQueue<u128, Priority>,
    orders: HashMap<u128, Order>,
}

/// Takes from the queue of the other side every order that `order` takes.
fn take_crossing(
    queue: &mut PriorityQueue<u128, Priority>,
    orders: &mut HashMap<u128, Order>,
    order: &Order,
) -> (matches: Vec<Order>)
    requires
        engine_table_wf(old(orders)@),
        side_wf(queue_entries(*old(queue)), old(orders)@, opposite(order.side)),
        order.price.wf(),
    ensures
        engine_table_wf(final(orders)@),
        side_wf(queue_entries(*final(queue)), final(orders)@, opposite(order.side)),
        forall|i: int|
            0 <= i < matches@.len() ==> old(orders)@.contains_key((#[trigger] matches@[i]).id)
                && old(orders)@[matches@[i].id] == matches@[i] && taken_by(*order, matches@[i]),
        forall|i: int, j: int|
            0 <= i < j < matches@.len() ==> (#[trigger] matches@[i]).id != (
            #[trigger] matches@[j]).id && no_worse(matches@[i], matches@[j]),
        forall|id: u128| #[trigger]
            old(orders)@.contains_key(id) && taken_by(*order, old(orders)@[id]) ==> exists|i: int|
                0 <= i < matches@.len() && (#[trigger] matches@[i]).id == id,
        final(orders)@ == old(orders)@.remove_keys(
            Set::new(|id: u128| old(orders)@.contains_key(id) && taken_by(*order, old(orders)@[id])),
        ),
{
    let ghost before = orders@;
    let ghost side = opposite(order.side);
    let mut matches: Vec<Order> = Vec::new();
    loop
        invariant
            side == opposite(order.side),
            order.price.wf(),
            engine_table_wf(orders@),
            side_wf(queue_entries(*queue), orders@, side),
            orders@.dom().finite(),
            forall|id: u128| #[trigger]
                orders@.contains_key(id) ==> before.contains_key(id) && before[id] == orders@[id],
            forall|i: int|
                0 <= i < matches@.len() ==> before.contains_key((#[trigger] matches@[i]).id)
                    && before[matches@[i].id] == matches@[i] && taken_by(*order, matches@[i])
                    && !orders@.contains_key(matches@[i].id),
            forall|i: int, j: int|
                0 <= i < j < matches@.len() ==> (#[trigger] matches@[i]).id != (
                #[trigger] matches@[j]).id && no_worse(matches@[i], matches@[j]),
            forall|i: int, id: u128|
                0 <= i < matches@.len() && orders@.contains_key(id) && orders@[id].side == side
                    ==> no_worse(#[trigger] matches@[i], #[trigger] orders@[id]),
            forall|id: u128| #[trigger]
                before.contains_key(id) && !orders@.contains_key(id) ==> exists|i: int|
                    0 <= i < matches@.len() && (#[trigger] matches@[i]).id == id,
        ensures
            forall|id: u128| #[trigger]
                orders@.contains_key(id) ==> !taken_by(*order, orders@[id]),
        decreases orders@.dom().len(),
    {
        let (id, p) = match queue_peek(queue) {
            Some(head) => head,
            None => {
                break;
            },
        };
        let ghost entries = queue_entries(*queue);
        let ghost table = orders@;
        let take = match orders.get(&id) {
            Some(maker) => match order.side {
                Side::Buy => order.price.ge(&maker.price),
                Side::Sell => order.price.le(&maker.price),
            },
            None => {
                proof {
                    assert(entries.contains_key(id));
                    assert(false);
                }
                false
            },
        };
        proof {
            assert(entries.contains_key(id));
            assert forall|k: u128| #[trigger]
                table.contains_key(k) && table[k].side == side implies no_worse(
                table[id],
                table[k],
            ) by {
                assert(entries.contains_key(k));
                lemma_priority_order(p, table[id], entries[k], table[k]);
            }
        }
        if !take {
            break;
        }
        let maker = match orders.remove(&id) {
            Some(maker) => maker,
            None => {
                proof {
                    assert(false);
                }
                break;
            },
        };
        let _ = queue_remove(queue, id);
        proof {
            let grown = matches@.push(maker);
            assert forall|k: u128| #[trigger]
                before.contains_key(k) && !orders@.contains_key(k) implies exists|i: int|
                0 <= i < grown.len() && (#[trigger] grown[i]).id == k by {
                if k == id {
                    assert(grown[matches@.len() as int].id == k);
                } else {
                    assert(!table.contains_key(k));
                    let i = choose|i: int| 0 <= i < matches@.len() && (#[trigger] matches@[i]).id == k;
                    assert(grown[i].id == k);
                }
            }
        }
        matches.push(maker);
    }
    proof {
        assert forall|id: u128| #[trigger]
            before.contains_key(id) && taken_by(*order, before[id]) implies exists|i: int|
            0 <= i < matches@.len() && (#[trigger] matches@[i]).id == id by {
            if orders@.contains_key(id) {
                assert(!taken_by(*order, orders@[id]));
            }
        }
        assert(orders@ =~= before.remove_keys(
            Set::new(|id: u128| before.contains_key(id) && taken_by(*order, before[id])),
        )) by {
            assert forall|id: u128| before.contains_key(id) && taken_by(
                *order,
                before[id],
            ) implies !orders@.contains_key(id) by {
                if orders@.contains_key(id) {
                    assert(!taken_by(*order, orders@[id]));
                }
            }
            assert forall|id: u128| before.contains_key(id) && !taken_by(
                *order,
                before[id],
            ) implies orders@.contains_key(id) by {
                if !orders@.contains_key(id) {
                    let i = choose|i: int| 0 <= i < matches@.len() && (#[trigger] matches@[i]).id == id;
                    assert(taken_by(*order, matches@[i]));
                }
            }
        }
    }
    matches
}

impl MatchingEngine {
    /// The resting orders, by identifier.
    pub closed spec fn resting(&self) -> Map<u128, Order> {
        self.orders@
    }

    /// The table and the two queues agree.
    pub closed spec fn wf(&self) -> bool {
        &&& engine_table_wf(self.orders@)
        &&& side_wf(queue_entries(self.buy_orders), self.orders@, Side::Buy)
        &&& side_wf(queue_entries(self.sell_orders), self.orders@, Side::Sell)
    }

    /// An engine in which nothing rests.
    pub fn new() -> (engine: MatchingEngine)
        ensures
            engine.wf(),
            engine.resting() == Map::<u128, Order>::empty(),
    {
        MatchingEngine { buy_orders: queue_new(), sell_orders: queue_new(), orders: HashMap::new() }
    }

    /// How many orders rest.
    pub fn len(&self) -> (n: usize)
        ensures
            n == self.resting().len(),
    {
        self.orders.len()
    }

    /// Whether an order rests under `order_id`.
    pub fn contains_order(&self, order_id: u128) -> (b: bool)
        ensures
            b == self.resting().contains_key(order_id),
    {
        self.orders.contains_key(&order_id)
    }

    /// Takes every resting sell at or below the buyer's price, lowest
    /// first; a buyer that takes none rests.
    fn match_buy_order(&mut self, order: Order) -> (matches: Vec<Order>)
        requires
            old(self).wf(),
            order.side == Side::Buy,
            order.price.wf(),
            !old(self).resting().contains_key(order.id),
        ensures
            final(self).wf(),
            added(old(self).resting(), order, final(self).resting(), matches@),
    {
        let matches = take_crossing(&mut self.sell_orders, &mut self.orders, &order);
        if matches.len() == 0 {
            proof {
                assert(self.orders@ =~= old(self).orders@);
            }
            let id: u128 = order.id;
            let p = priority_for(&order, 0);
            let _ = queue_push(&mut self.buy_orders, id, p);
            let _ = self.orders.insert(id, order);
        }
        matches
    }

    /// Takes every resting buy at or above the seller's price, highest
    /// first; a seller that takes none rests.
    fn match_sell_order(&mut self, order: Order) -> (matches: Vec<Order>)
        requires
            old(self).wf(),
            order.side == Side::Sell,
            order.price.wf(),
            !old(self).resting().contains_key(order.id),
        ensures
            final(self).wf(),
            added(old(self).resting(), order, final(self).resting(), matches@),
    {
        let matches = take_crossing(&mut self.buy_orders, &mut self.orders, &order);
        if matches.len() == 0 {
            proof {
                assert(self.orders@ =~= old(self).orders@);
            }
            let id: u128 = order.id;
            let p = priority_for(&order, 0);
            let _ = queue_push(&mut self.sell_orders, id, p);
            let _ = self.orders.insert(id, order);
        }
        matches
    }

    /// Adds the order: it takes the resting orders that its price crosses,
    /// which are handed back, or rests.
    pub fn add_order(&mut self, order: Order) -> (matches: Vec<Order>)
        requires
            old(self).wf(),
            order.price.wf(),
            !old(self).resting().contains_key(order.id),
        ensures
            final(self).wf(),
            added(old(self).resting(), order, final(self).resting(), matches@),
    {
        match order.side {
            Side::Buy => self.match_buy_order(order),
            Side::Sell => self.match_sell_order(order),
        }
    }
}

} // verus!
