//! The order book of one symbol: resting limit orders matched by price,
//! then by time of arrival.
//!
//! The book keeps every resting order in a table by identifier, and the
//! identifier of each in the queue of its side, under a priority made of
//! its price and its arrival. The head of the buy queue is the highest
//! price, the head of the sell queue the lowest; among equal prices the
//! earliest arrival comes first.

use vstd::prelude::*;
use priority_queue::PriorityQueue;
use std::collections::HashMap;
use crate::decimal::{Decimal, UNITS_PER_ONE};
use crate::engine::liquidity::{
    lemma_liquidity_insert,
    lemma_liquidity_none,
    lemma_liquidity_not_negative,
    lemma_liquidity_remove,
    liquidity,
};
use crate::engine::queue::{
    priority_le,
    queue_entries,
    queue_new,
    queue_peek,
    queue_push,
    queue_remove,
    Priority,
};
use crate::models::order::{Order, OrderType, Side};
use crate::models::trade::Trade;
use crate::utils::error::OrderBookError;

verus! {

broadcast use vstd::std_specs::hash::group_hash_axioms;

/// The other side.
pub open spec fn opposite(side: Side) -> Side {
    match side {
        Side::Buy => Side::Sell,
        Side::Sell => Side::Buy,
    }
}

/// What holds of an order that rests in a book under `id`: it is a limit
/// order with that identifier, a price that is not negative, and something
/// left to fill, which can be formed without rounding.
pub open spec fn rests(o: Order, id: u128) -> bool {
    &&& o.id == id
    &&& o.order_type == OrderType::Limit
    &&& o.wf()
    &&& o.price@ >= 0
    &&& 0 <= o.filled_quantity@ < o.quantity@
    &&& o.quantity.exact_difference(o.filled_quantity) is Some
}

/// `p` is a priority of the order `o` in the queue of its side: the price
/// in whole ones and fraction, then the arrival time counted down, so that
/// the greatest priority is the best price and, at that price, the
/// earliest arrival. On the sell side the price is counted down too.
pub open spec fn priority_of(p: Priority, o: Order) -> bool {
    match o.side {
        Side::Buy => {
            &&& p.0 * UNITS_PER_ONE + p.1 == o.price@
            &&& 0 <= p.1 < UNITS_PER_ONE
            &&& p.2 == -1 - o.timestamp
        },
        Side::Sell => {
            &&& -p.0 * UNITS_PER_ONE - p.1 == o.price@
            &&& -UNITS_PER_ONE < p.1 <= 0
            &&& p.2 == -1 - o.timestamp
        },
    }
}

/// `a` comes before `b` on their side, or with it: its price is better, or
/// the same and it arrived no later.
pub open spec fn no_worse(a: Order, b: Order) -> bool {
    match a.side {
        Side::Buy => a.price@ > b.price@ || (a.price@ == b.price@ && a.timestamp <= b.timestamp),
        Side::Sell => a.price@ < b.price@ || (a.price@ == b.price@ && a.timestamp <= b.timestamp),
    }
}

/// The queue of one side holds the orders of that side in the table, each
/// under a priority of its own.
pub open spec fn side_wf(entries: Map<u128, Priority>, orders: Map<u128, Order>, side: Side) -> bool {
    &&& forall|id: u128| #[trigger]
        entries.contains_key(id) ==> orders.contains_key(id) && orders[id].side == side
            && priority_of(entries[id], orders[id])
    &&& forall|id: u128| #[trigger]
        orders.contains_key(id) && orders[id].side == side ==> entries.contains_key(id)
}

/// Every order in the table rests under its own identifier.
pub open spec fn table_wf(orders: Map<u128, Order>) -> bool {
    forall|id: u128| #[trigger] orders.contains_key(id) ==> rests(orders[id], id)
}

/// Priorities of two orders of one side are ordered as the orders are.
pub proof fn lemma_priority_order(p: Priority, a: Order, q: Priority, b: Order)
    requires
        a.side == b.side,
        priority_of(p, a),
        priority_of(q, b),
        priority_le(q, p),
    ensures
        no_worse(a, b),
{
}

/// The quantities of the trades, added up.
pub open spec fn total_quantity(trades: Seq<Trade>) -> int
    decreases trades.len(),
{
    if trades.len() == 0 {
        0
    } else {
        total_quantity(trades.drop_last()) + trades.last().quantity@
    }
}

/// Every quantity of a trade is above zero: the total is not negative, and
/// it is zero only where there is no trade.
pub proof fn lemma_total_quantity(trades: Seq<Trade>)
    requires
        forall|i: int| 0 <= i < trades.len() ==> (#[trigger] trades[i]).quantity@ > 0,
    ensures
        total_quantity(trades) >= 0,
        total_quantity(trades) == 0 <==> trades.len() == 0,
    decreases trades.len(),
{
    if trades.len() > 0 {
        let front = trades.drop_last();
        assert forall|i: int| 0 <= i < front.len() implies (#[trigger] front[i]).quantity@ > 0 by {
            assert(front[i] == trades[i]);
        }
        lemma_total_quantity(front);
    }
}

/// The taker takes the maker's price: it is a market order, or its limit
/// is no worse than the price.
pub open spec fn accepts(taker: Order, maker: Order) -> bool {
    taker.order_type == OrderType::Market || match taker.side {
        Side::Buy => taker.price@ >= maker.price@,
        Side::Sell => taker.price@ <= maker.price@,
    }
}

/// `after` is `before` with no less filled, and nothing else changed.
pub open spec fn filled_further(before: Order, after: Order) -> bool {
    &&& after == Order { filled_quantity: after.filled_quantity, ..before }
    &&& before.filled_quantity@ <= after.filled_quantity@
}

/// The trade is a fill against an order that rested on the other side of
/// `taker` in `orders` at a price that the taker accepts: it names that
/// order, has its price, and a quantity above zero.
pub open spec fn fills_resting(t: Trade, orders: Map<u128, Order>, taker: Order) -> bool {
    &&& orders.contains_key(t.order_id)
    &&& orders[t.order_id].side == opposite(taker.side)
    &&& accepts(taker, orders[t.order_id])
    &&& t.price == orders[t.order_id].price
    &&& t.quantity.wf()
    &&& t.quantity@ > 0
}

/// What the trade left of the order that it fills: the trade is no larger
/// than what the order had left; an order that it fills up has left the
/// table, another rests with the quantity of the trade filled further.
pub open spec fn maker_settled(t: Trade, orders0: Map<u128, Order>, orders: Map<u128, Order>) -> bool {
    let before = orders0[t.order_id];
    &&& t.quantity@ <= before.remaining()
    &&& if t.quantity@ == before.remaining() {
        !orders.contains_key(t.order_id)
    } else {
        orders.contains_key(t.order_id) && orders[t.order_id].filled_quantity@
            == before.filled_quantity@ + t.quantity@
    }
}

/// One fill of `taker` against `maker`: the quantity, which is the smaller
/// of what the two have left, and what each has filled after it. There is
/// none where one of the remainders before or after it, or one of the new
/// fills, cannot be formed without rounding.
pub open spec fn fill_of(taker: Order, maker: Order) -> Option<(Decimal, Decimal, Decimal)> {
    match (
        taker.quantity.exact_difference(taker.filled_quantity),
        maker.quantity.exact_difference(maker.filled_quantity),
    ) {
        (Some(left), Some(offered)) => {
            let quantity = if left@ <= offered@ {
                left
            } else {
                offered
            };
            match (
                taker.filled_quantity.exact_sum(quantity),
                maker.filled_quantity.exact_sum(quantity),
            ) {
                (Some(t), Some(m)) => if taker.quantity.exact_difference(t) is Some
                    && maker.quantity.exact_difference(m) is Some {
                    Some((quantity, t, m))
                } else {
                    None
                },
                _ => None,
            }
        },
        _ => None,
    }
}

/// Quantity and fill of both orders can be written with `s` decimal
/// places.
pub open spec fn pair_fits(taker: Order, maker: Order, s: int) -> bool {
    &&& taker.quantity.fits_at(s)
    &&& taker.filled_quantity.fits_at(s)
    &&& maker.quantity.fits_at(s)
    &&& maker.filled_quantity.fits_at(s)
}

/// Quantity and fill of the taker, and of every order on the other side of
/// the table, can be written with `s` decimal places. Then every fill is
/// formed without rounding.
pub open spec fn book_fits(orders: Map<u128, Order>, taker: Order, s: int) -> bool {
    &&& taker.quantity.fits_at(s)
    &&& taker.filled_quantity.fits_at(s)
    &&& forall|id: u128| #[trigger]
        orders.contains_key(id) && orders[id].side == opposite(taker.side)
            ==> orders[id].quantity.fits_at(s) && orders[id].filled_quantity.fits_at(s)
}

/// Nothing is left to match: the taker is filled, or it accepts the price
/// of no order on the other side.
pub open spec fn exhausted(orders: Map<u128, Order>, taker: Order) -> bool {
    taker.filled_quantity@ == taker.quantity@ || forall|id: u128| #[trigger]
        orders.contains_key(id) && orders[id].side == opposite(taker.side) ==> !accepts(
            taker,
            orders[id],
        )
}

/// The order under `id` is one that the taker would fill next: it is on
/// the other side at a price that the taker accepts, and no order of its
/// side comes before it.
pub open spec fn heads(orders: Map<u128, Order>, taker: Order, id: u128) -> bool {
    &&& orders.contains_key(id)
    &&& orders[id].side == opposite(taker.side)
    &&& accepts(taker, orders[id])
    &&& forall|k: u128| #[trigger]
        orders.contains_key(k) && orders[k].side == opposite(taker.side) ==> no_worse(
            orders[id],
            orders[k],
        )
}

/// Matching cannot go on: the fill against the order that is next cannot
/// be formed without rounding.
pub open spec fn stalled(orders: Map<u128, Order>, taker: Order) -> bool {
    exists|id: u128| #[trigger] heads(orders, taker, id) && fill_of(taker, orders[id]) is None
}

/// What matching leaves of the table and the taker.
///
/// Orders on the taker's own side are untouched; orders on the other side
/// are filled further or gone, and none comes in; of the taker only the
/// fill changes, by the total of the trades; each trade fills an order
/// that rested, at most one trade each order.
///
/// The trades come best price first and, at one price, earliest arrival
/// first; the order that a trade fills comes before every order of its
/// side that rests afterwards, or with it; every trade but the last fills
/// its order up, and the last leaves an order resting only where the taker
/// is filled; an order that no trade fills is as it was.
///
/// Matching ends when nothing is left to match, and then the total of the
/// trades is the smaller of what the taker had left and what the table
/// offered it; or when the next fill cannot be formed without rounding,
/// which does not happen where all the quantities can be written with one
/// number of decimal places.
pub open spec fn matched(
    orders0: Map<u128, Order>,
    taker0: Order,
    orders: Map<u128, Order>,
    taker: Order,
    trades: Seq<Trade>,
) -> bool {
    &&& filled_further(taker0, taker)
    &&& taker.filled_quantity.wf()
    &&& taker.filled_quantity@ <= taker.quantity@
    &&& taker.quantity.exact_difference(taker.filled_quantity) is Some
    &&& taker.filled_quantity@ == taker0.filled_quantity@ + total_quantity(trades)
    &&& (trades.len() == 0 <==> total_quantity(trades) == 0)
    &&& forall|id: u128| #[trigger]
        orders.contains_key(id) ==> orders0.contains_key(id) && filled_further(
            orders0[id],
            orders[id],
        )
    &&& forall|id: u128| #[trigger]
        orders0.contains_key(id) && orders0[id].side == taker0.side ==> orders.contains_key(id)
            && orders[id] == orders0[id]
    &&& forall|i: int| 0 <= i < trades.len() ==> fills_resting(#[trigger] trades[i], orders0, taker0)
    &&& exhausted(orders, taker) || stalled(orders, taker)
    &&& exhausted(orders, taker) ==> total_quantity(trades) == if taker0.remaining() <= liquidity(
        orders0,
        taker0,
    ) {
        taker0.remaining()
    } else {
        liquidity(orders0, taker0)
    }
    &&& forall|s: int| #[trigger] book_fits(orders0, taker0, s) ==> exhausted(orders, taker)
    &&& forall|i: int, j: int|
        0 <= i < j < trades.len() ==> (#[trigger] trades[i]).order_id != (
        #[trigger] trades[j]).order_id && no_worse(
            orders0[trades[i].order_id],
            orders0[trades[j].order_id],
        )
    &&& forall|i: int, id: u128|
        0 <= i < trades.len() && #[trigger] orders.contains_key(id) && orders[id].side == opposite(
            taker0.side,
        ) ==> no_worse(orders0[(#[trigger] trades[i]).order_id], orders[id])
    &&& forall|i: int| 0 <= i < trades.len() ==> maker_settled(#[trigger] trades[i], orders0, orders)
    &&& forall|i: int|
        0 <= i < trades.len() && orders.contains_key((#[trigger] trades[i]).order_id) ==> i
            == trades.len() - 1 && taker.filled_quantity@ == taker.quantity@
    &&& forall|id: u128| #[trigger]
        orders0.contains_key(id) ==> (orders.contains_key(id) && orders[id] == orders0[id])
            || exists|i: int| 0 <= i < trades.len() && (#[trigger] trades[i]).order_id == id
}

/// Forms one fill of `taker` against `maker`. There is one wherever the
/// quantities and fills of the two can be written with one number of
/// decimal places, and the new fills then need no more places.
fn form_fill(taker: &Order, maker: &Order) -> (r: Option<(Decimal, Decimal, Decimal)>)
    requires
        taker.quantity.wf(),
        taker.filled_quantity.wf(),
        maker.quantity.wf(),
        maker.filled_quantity.wf(),
        0 <= taker.filled_quantity@ <= taker.quantity@,
        0 <= maker.filled_quantity@ <= maker.quantity@,
    ensures
        r == fill_of(*taker, *maker),
        r matches Some(x) ==> x.0.wf() && x.1.wf() && x.2.wf() && x.0@ == (if taker.remaining()
            <= maker.remaining() {
            taker.remaining()
        } else {
            maker.remaining()
        }) && x.1@ == taker.filled_quantity@ + x.0@ && x.2@ == maker.filled_quantity@ + x.0@
            && taker.quantity.exact_difference(x.1) is Some && maker.quantity.exact_difference(
            x.2,
        ) is Some,
        forall|s: int| #[trigger] pair_fits(*taker, *maker, s) ==> r is Some,
        r matches Some(x) ==> forall|s: int| #[trigger]
            pair_fits(*taker, *maker, s) ==> x.1.scale <= s && x.2.scale <= s,
{
    let left = taker.quantity.minus_exact(taker.filled_quantity);
    let offered = maker.quantity.minus_exact(maker.filled_quantity);
    proof {
        assert forall|s: int| #[trigger] pair_fits(*taker, *maker, s) implies left is Some
            && offered is Some && left.unwrap().scale <= s && offered.unwrap().scale <= s by {
            crate::decimal::lemma_subtracts_exactly(taker.quantity, taker.filled_quantity, s);
            crate::decimal::lemma_subtracts_exactly(maker.quantity, maker.filled_quantity, s);
        }
    }
    let (left, offered) = match (left, offered) {
        (Some(left), Some(offered)) => (left, offered),
        _ => {
            return None;
        },
    };
    let quantity = left.min(offered);
    let t = taker.filled_quantity.plus_exact(quantity);
    let m = maker.filled_quantity.plus_exact(quantity);
    proof {
        assert forall|s: int| #[trigger] pair_fits(*taker, *maker, s) implies t is Some && m is Some
            && t.unwrap().scale <= s && m.unwrap().scale <= s by {
            crate::decimal::lemma_fits_below(quantity, taker.quantity, s);
            crate::decimal::lemma_adds_exactly(
                taker.filled_quantity,
                quantity,
                taker.quantity,
                s,
            );
            crate::decimal::lemma_adds_exactly(
                maker.filled_quantity,
                quantity,
                maker.quantity,
                s,
            );
        }
    }
    let (t, m) = match (t, m) {
        (Some(t), Some(m)) => (t, m),
        _ => {
            return None;
        },
    };
    let left_after = taker.quantity.minus_exact(t);
    let offered_after = maker.quantity.minus_exact(m);
    proof {
        assert forall|s: int| #[trigger] pair_fits(*taker, *maker, s) implies left_after is Some
            && offered_after is Some by {
            crate::decimal::lemma_fits_below(t, taker.quantity, s);
            crate::decimal::lemma_fits_below(m, maker.quantity, s);
            crate::decimal::lemma_subtracts_exactly(taker.quantity, t, s);
            crate::decimal::lemma_subtracts_exactly(maker.quantity, m, s);
        }
    }
    if left_after.is_some() && offered_after.is_some() {
        Some((quantity, t, m))
    } else {
        None
    }
}

/// Matches the taker against the queue of the other side, best price
/// first: while the taker has something left and the head of the queue has
/// a price that it accepts, the smaller of the two remainders is filled at
/// the head's price; a head that is filled leaves queue and table.
fn match_side(
    queue: &mut PriorityQueue<u128, Priority>,
    orders: &mut HashMap<u128, Order>,
    taker: &mut Order,
) -> (trades: Vec<Trade>)
    requires
        table_wf(old(orders)@),
        side_wf(queue_entries(*old(queue)), old(orders)@, opposite(old(taker).side)),
        old(taker).order_type == OrderType::Limit ==> old(taker).price.wf(),
        old(taker).quantity.wf(),
        old(taker).filled_quantity.wf(),
        0 <= old(taker).filled_quantity@ <= old(taker).quantity@,
        old(taker).quantity.exact_difference(old(taker).filled_quantity) is Some,
    ensures
        table_wf(final(orders)@),
        side_wf(queue_entries(*final(queue)), final(orders)@, opposite(old(taker).side)),
        matched(old(orders)@, *old(taker), final(orders)@, *final(taker), trades@),
        entries_kept(queue_entries(*old(queue)), queue_entries(*final(queue))),
        served_in_turn(queue_entries(*old(queue)), queue_entries(*final(queue)), trades@),
{
    let ghost taker0 = *taker;
    let ghost orders0 = orders@;
    let ghost entries0 = queue_entries(*queue);
    let ghost side = opposite(taker.side);
    let mut trades: Vec<Trade> = Vec::new();
    loop
        invariant
            side == opposite(taker0.side),
            table_wf(orders@),
            side_wf(queue_entries(*queue), orders@, side),
            entries_kept(entries0, queue_entries(*queue)),
            served_in_turn(entries0, queue_entries(*queue), trades@),
            taker.order_type == OrderType::Limit ==> taker.price.wf(),
            taker.quantity.wf(),
            filled_further(taker0, *taker),
            taker.filled_quantity.wf(),
            0 <= taker.filled_quantity@ <= taker.quantity@,
            taker.quantity.exact_difference(taker.filled_quantity) is Some,
            taker.filled_quantity@ == taker0.filled_quantity@ + total_quantity(trades@),
            forall|s: int| #[trigger]
                book_fits(orders0, taker0, s) ==> taker.filled_quantity.fits_at(s),
            forall|id: u128| #[trigger]
                orders@.contains_key(id) ==> orders0.contains_key(id) && filled_further(
                    orders0[id],
                    orders@[id],
                ),
            forall|id: u128| #[trigger]
                orders0.contains_key(id) && orders0[id].side == taker0.side
                    ==> orders@.contains_key(id) && orders@[id] == orders0[id],
            forall|i: int|
                0 <= i < trades@.len() ==> fills_resting(#[trigger] trades@[i], orders0, taker0),
            orders@.dom().finite(),
            liquidity(orders@, taker0) + total_quantity(trades@) == liquidity(orders0, taker0),
            forall|i: int, j: int|
                0 <= i < j < trades@.len() ==> (#[trigger] trades@[i]).order_id != (
                #[trigger] trades@[j]).order_id && no_worse(
                    orders0[trades@[i].order_id],
                    orders0[trades@[j].order_id],
                ),
            forall|i: int, id: u128|
                0 <= i < trades@.len() && #[trigger] orders@.contains_key(id) && orders@[id].side
                    == side ==> no_worse(orders0[(#[trigger] trades@[i]).order_id], orders@[id]),
            forall|i: int|
                0 <= i < trades@.len() ==> maker_settled(#[trigger] trades@[i], orders0, orders@),
            forall|i: int|
                0 <= i < trades@.len() && orders@.contains_key((#[trigger] trades@[i]).order_id)
                    ==> i == trades@.len() - 1 && taker.filled_quantity@ == taker.quantity@,
            forall|id: u128| #[trigger]
                orders0.contains_key(id) ==> (orders@.contains_key(id) && orders@[id]
                    == orders0[id]) || exists|i: int|
                    0 <= i < trades@.len() && (#[trigger] trades@[i]).order_id == id,
        ensures
            exhausted(orders@, *taker) || stalled(orders@, *taker),
            forall|s: int| #[trigger] book_fits(orders0, taker0, s) ==> exhausted(orders@, *taker),
        decreases orders@.dom().len(), taker.quantity@ - taker.filled_quantity@,
    {
        if taker.is_filled() {
            break;
        }
        let ghost table = orders@;
        let (id, p) = match queue_peek(queue) {
            Some(head) => head,
            None => {
                break;
            },
        };
        let ghost entries = queue_entries(*queue);
        let ghost earlier = trades@;
        proof {
            assert(entries.contains_key(id));
            // the head was filled by no earlier trade, so it is as it was
            assert forall|i: int| 0 <= i < earlier.len() implies (#[trigger] earlier[i]).order_id
                != id by {
                assert(!table.contains_key(earlier[i].order_id));
            }
            assert(table[id] == orders0[id]);
            // the head is no worse than any order of its side
            assert forall|k: u128| #[trigger]
                table.contains_key(k) && table[k].side == side implies no_worse(
                table[id],
                table[k],
            ) by {
                assert(entries.contains_key(k));
                lemma_priority_order(p, table[id], entries[k], table[k]);
            }
        }
        let (accepted, step) = match orders.get(&id) {
            Some(maker) => {
                let accepted = match taker.order_type {
                    OrderType::Market => true,
                    OrderType::Limit => match taker.side {
                        Side::Buy => taker.price.ge(&maker.price),
                        Side::Sell => taker.price.le(&maker.price),
                    },
                };
                let step = if accepted {
                    form_fill(taker, maker)
                } else {
                    None
                };
                (accepted, step)
            },
            None => {
                proof {
                    assert(false);
                }
                (false, None)
            },
        };
        if !accepted {
            break;
        }
        let (fill, taker_filled, maker_filled) = match step {
            Some(step) => step,
            None => {
                proof {
                    assert(heads(table, *taker, id));
                    assert forall|s: int| #[trigger] book_fits(orders0, taker0, s) implies exhausted(
                        table,
                        *taker,
                    ) by {
                        assert(pair_fits(*taker, table[id], s));
                    }
                }
                break;
            },
        };
        let mut maker = match orders.remove(&id) {
            Some(maker) => maker,
            None => {
                proof {
                    assert(false);
                }
                break;
            },
        };
        let ghost maker0 = maker;
        let ghost taker_before = *taker;
        proof {
            assert(rests(maker, id));
            assert(maker0 == orders0[id]);
            crate::decimal::lemma_sign(maker.price);
        }
        taker.filled_quantity = taker_filled;
        maker.filled_quantity = maker_filled;
        let trade = Trade::new(&maker, taker, fill);
        proof {
            assert(trades@.push(trade).drop_last() =~= trades@);
            assert(fills_resting(trade, orders0, taker0));
            assert forall|s: int| #[trigger] book_fits(orders0, taker0, s) implies taker.filled_quantity.fits_at(
                s,
            ) by {
                assert(pair_fits(taker_before, maker0, s));
                crate::decimal::lemma_fits_below(taker.filled_quantity, taker.quantity, s);
            }
        }
        trades.push(trade);
        proof {
            lemma_liquidity_remove(table, taker0, id);
            assert(accepts(taker0, maker0));
        }
        if maker.is_filled() {
            let _ = queue_remove(queue, id);
        } else {
            let _ = orders.insert(id, maker);
            proof {
                assert(orders@.dom() =~= orders@.dom().insert(id));
                lemma_liquidity_insert(table.remove(id), taker0, id, maker);
            }
        }
        proof {
            let grown = trades@;
            let last = earlier.len() as int;
            assert(grown[last] == trade);
            let left = queue_entries(*queue);
            assert(entries0[id] == p);
            assert forall|i: int| 0 <= i < grown.len() implies entries0.contains_key(
                (#[trigger] grown[i]).order_id,
            ) by {
                if i < last {
                    assert(grown[i] == earlier[i]);
                }
            }
            assert forall|i: int, j: int| 0 <= i < j < grown.len() implies priority_le(
                entries0[(#[trigger] grown[j]).order_id],
                entries0[(#[trigger] grown[i]).order_id],
            ) by {
                assert(grown[i] == earlier[i]);
                if j < last {
                    assert(grown[j] == earlier[j]);
                } else {
                    assert(entries.contains_key(id));
                }
            }
            assert forall|i: int, k: u128|
                0 <= i < grown.len() && #[trigger] left.contains_key(k) implies priority_le(
                left[k],
                entries0[(#[trigger] grown[i]).order_id],
            ) by {
                assert(entries.contains_key(k));
                if i < last {
                    assert(grown[i] == earlier[i]);
                }
            }
            assert forall|i: int| 0 <= i < grown.len() implies maker_settled(
                #[trigger] grown[i],
                orders0,
                orders@,
            ) by {
                if i < last {
                    assert(grown[i] == earlier[i]);
                    assert(maker_settled(earlier[i], orders0, table));
                }
            }
            assert forall|i: int, j: int| 0 <= i < j < grown.len() implies (#[trigger] grown[i]).order_id
                != (#[trigger] grown[j]).order_id && no_worse(
                orders0[grown[i].order_id],
                orders0[grown[j].order_id],
            ) by {
                assert(grown[i] == earlier[i]);
                if j < last {
                    assert(grown[j] == earlier[j]);
                } else {
                    assert(table.contains_key(id));
                }
            }
            assert forall|i: int, k: u128|
                0 <= i < grown.len() && #[trigger] orders@.contains_key(k) && orders@[k].side
                    == side implies no_worse(orders0[(#[trigger] grown[i]).order_id], orders@[k]) by {
                assert(table.contains_key(k));
                if i < last {
                    assert(grown[i] == earlier[i]);
                }
            }
            assert forall|i: int|
                0 <= i < grown.len() && orders@.contains_key(
                    (#[trigger] grown[i]).order_id,
                ) implies i == grown.len() - 1 && taker.filled_quantity@ == taker.quantity@ by {
                if i < last {
                    assert(grown[i] == earlier[i]);
                    assert(!table.contains_key(earlier[i].order_id));
                }
            }
            assert forall|k: u128| #[trigger] orders0.contains_key(k) implies (orders@.contains_key(k)
                && orders@[k] == orders0[k]) || exists|i: int|
                0 <= i < grown.len() && (#[trigger] grown[i]).order_id == k by {
                if k == id {
                    assert(grown[last].order_id == k);
                } else if !(table.contains_key(k) && table[k] == orders0[k]) {
                    let i = choose|i: int| 0 <= i < earlier.len() && (#[trigger] earlier[i]).order_id == k;
                    assert(grown[i] == earlier[i]);
                }
            }
        }
    }
    proof {
        lemma_liquidity_not_negative(orders@, taker0);
        if exhausted(orders@, *taker) && taker.filled_quantity@ != taker.quantity@ {
            assert forall|k: u128| #[trigger]
                orders@.contains_key(k) && orders@[k].side == opposite(taker0.side) implies !accepts(
                taker0,
                orders@[k],
            ) by {
                assert(!accepts(*taker, orders@[k]));
            }
            lemma_liquidity_none(orders@, taker0);
        }
        assert forall|i: int| 0 <= i < trades@.len() implies (#[trigger] trades@[i]).quantity@ > 0 by {
            assert(fills_resting(trades@[i], orders0, taker0));
        }
        lemma_total_quantity(trades@);
    }
    trades
}

/// The price of the order can be matched and rested: a limit order has a
/// price that is an amount and not negative. The price of a market order
/// is not looked at.
pub open spec fn price_valid(o: Order) -> bool {
    o.order_type == OrderType::Limit ==> o.price.wf() && o.price@ >= 0
}

/// The order has something to fill: quantity and fill are amounts, the
/// fill is not negative and less than was ordered, and what is left can be
/// formed without rounding.
pub open spec fn quantity_valid(o: Order) -> bool {
    &&& o.quantity.wf()
    &&& o.filled_quantity.wf()
    &&& 0 <= o.filled_quantity@ < o.quantity@
    &&& o.quantity.exact_difference(o.filled_quantity) is Some
}

/// What processing `order` makes of the resting orders `before`: the order
/// is matched, and what is left of a limit order rests under its
/// identifier; what is left of a market order is dropped.
pub open spec fn processed(
    before: Map<u128, Order>,
    order: Order,
    after: Map<u128, Order>,
    trades: Seq<Trade>,
) -> bool {
    exists|taker: Order|
        {
            &&& #[trigger] matched(before, order, after.remove(order.id), taker, trades)
            &&& if taker.order_type == OrderType::Limit && taker.filled_quantity@
                < taker.quantity@ {
                after.contains_key(order.id) && after[order.id] == taker
            } else {
                !after.contains_key(order.id)
            }
        }
}

/// What a cancellation hands back.
pub open spec fn cancelled(resting: Map<u128, Order>, order_id: u128) -> Option<Order> {
    if resting.contains_key(order_id) {
        Some(resting[order_id])
    } else {
        None
    }
}

/// Cancelling twice hands back nothing the second time.
pub proof fn lemma_cancel_twice(resting: Map<u128, Order>, order_id: u128)
    ensures
        cancelled(resting.remove(order_id), order_id) is None,
        resting.remove(order_id).remove(order_id) == resting.remove(order_id),
{
    assert(resting.remove(order_id).remove(order_id) =~= resting.remove(order_id));
}

/// The arrival that a priority stands for: the fourth part counts it down.
pub open spec fn arrival_of(p: Priority) -> int {
    -1 - p.3
}

/// Every entry of the queue came to rest under an arrival that has been
/// given out: one below `next`, or `next` itself where the arrivals have
/// run out.
pub open spec fn arrivals_wf(entries: Map<u128, Priority>, next: int) -> bool {
    forall|id: u128| #[trigger]
        entries.contains_key(id) ==> 0 <= arrival_of(entries[id]) <= next && (arrival_of(
            entries[id],
        ) < next || next == u64::MAX)
}

/// The trades were made in the order of the queue: each fills an entry of
/// the queue as it was, no later trade fills an entry of a greater
/// priority, and no entry that is left has a greater priority than one
/// that a trade fills.
pub open spec fn served_in_turn(
    entries0: Map<u128, Priority>,
    entries: Map<u128, Priority>,
    trades: Seq<Trade>,
) -> bool {
    &&& forall|i: int|
        0 <= i < trades.len() ==> entries0.contains_key((#[trigger] trades[i]).order_id)
    &&& forall|i: int, j: int|
        0 <= i < j < trades.len() ==> priority_le(
            entries0[(#[trigger] trades[j]).order_id],
            entries0[(#[trigger] trades[i]).order_id],
        )
    &&& forall|i: int, id: u128|
        0 <= i < trades.len() && #[trigger] entries.contains_key(id) ==> priority_le(
            entries[id],
            entries0[(#[trigger] trades[i]).order_id],
        )
}

/// The two orders have one price and one time.
pub open spec fn level(a: Order, b: Order) -> bool {
    a.price@ == b.price@ && a.timestamp == b.timestamp
}

/// The entries that are left are as they were.
pub open spec fn entries_kept(before: Map<u128, Priority>, after: Map<u128, Priority>) -> bool {
    forall|id: u128| #[trigger]
        after.contains_key(id) ==> before.contains_key(id) && before[id] == after[id]
}

pub struct OrderBook {
    symbol: String,
    buy_orders: PriorityQueue<u128, Priority>,
    sell_orders: PriorityQueue<u128, Priority>,
    orders: HashMap<u128, Order>,
    next_sequence: u64,
}

/// The priority of `o` as the `sequence`-th arrival.
pub(crate) fn priority_for(o: &Order, sequence: u64) -> (p: Priority)
    requires
        o.price.wf(),
    ensures
        priority_of(p, *o),
        p.3 == -1 - sequence,
{
    let k = o.price.order_key();
    let arrival: i128 = -1 - o.timestamp;
    let turn: i128 = -1 - (sequence as i128);
    match o.side {
        Side::Buy => (k.0, k.1, arrival, turn),
        Side::Sell => (-k.0, -k.1, arrival, turn),
    }
}

impl OrderBook {
    /// The resting orders, by identifier.
    pub closed spec fn resting(&self) -> Map<u128, Order> {
        self.orders@
    }

    /// The symbol that the book is for.
    pub closed spec fn symbol_view(&self) -> Seq<char> {
        self.symbol@
    }

    /// The arrival under which the order with this identifier came to
    /// rest: among resting orders of one side, one price and one time the
    /// smallest arrival is matched first.
    pub closed spec fn arrival(&self, order_id: u128) -> int {
        if queue_entries(self.buy_orders).contains_key(order_id) {
            arrival_of(queue_entries(self.buy_orders)[order_id])
        } else {
            arrival_of(queue_entries(self.sell_orders)[order_id])
        }
    }

    /// The arrival that the next order to rest comes under.
    pub closed spec fn next_arrival(&self) -> int {
        self.next_sequence as int
    }

    /// The table and the two queues agree, and every resting order has an
    /// arrival that was given out.
    pub closed spec fn wf(&self) -> bool {
        &&& table_wf(self.orders@)
        &&& side_wf(queue_entries(self.buy_orders), self.orders@, Side::Buy)
        &&& side_wf(queue_entries(self.sell_orders), self.orders@, Side::Sell)
        &&& arrivals_wf(queue_entries(self.buy_orders), self.next_sequence as int)
        &&& arrivals_wf(queue_entries(self.sell_orders), self.next_sequence as int)
    }

    /// The trades were made in the order of arrival, where price and time
    /// do not tell: of two orders of one price and one time that trades
    /// fill, the one that arrived first is filled first; and no order of
    /// the side `side` that rests on in `after` arrived before an order of
    /// its price and time that a trade fills.
    pub open spec fn in_turn(&self, after: &OrderBook, trades: Seq<Trade>, side: Side) -> bool {
        &&& forall|i: int, j: int|
            0 <= i < j < trades.len() && level(
                self.resting()[(#[trigger] trades[i]).order_id],
                self.resting()[(#[trigger] trades[j]).order_id],
            ) ==> self.arrival(trades[i].order_id) <= self.arrival(trades[j].order_id)
        &&& forall|i: int, id: u128|
            0 <= i < trades.len() && #[trigger] after.resting().contains_key(id)
                && self.resting().contains_key(id) && self.resting()[id].side == side && level(
                self.resting()[(#[trigger] trades[i]).order_id],
                self.resting()[id],
            ) ==> self.arrival(trades[i].order_id) <= self.arrival(id)
    }

    /// The orders that rest in both books have the arrivals in this one
    /// that they have in the other.
    pub open spec fn arrivals_kept(&self, before: &OrderBook) -> bool {
        forall|id: u128| #[trigger]
            self.resting().contains_key(id) && before.resting().contains_key(id) ==> self.arrival(
                id,
            ) == before.arrival(id)
    }

    /// An empty book.
    pub fn new(symbol: String) -> (book: OrderBook)
        ensures
            book.wf(),
            book.symbol_view() == symbol@,
            book.resting() == Map::<u128, Order>::empty(),
            book.next_arrival() == 0,
    {
        OrderBook {
            symbol,
            buy_orders: queue_new(),
            sell_orders: queue_new(),
            orders: HashMap::new(),
            next_sequence: 0,
        }
    }

    /// The symbol that the book is for.
    pub fn symbol(&self) -> (s: &String)
        ensures
            s@ == self.symbol_view(),
    {
        &self.symbol
    }

    /// Whether an order rests under `order_id`.
    pub fn contains_order(&self, order_id: u128) -> (b: bool)
        ensures
            b == self.resting().contains_key(order_id),
    {
        self.orders.contains_key(&order_id)
    }

    /// How many orders rest.
    pub fn len(&self) -> (n: usize)
        ensures
            n == self.resting().len(),
    {
        self.orders.len()
    }

    /// Takes the order out of the book. The result is the order as it
    /// rested, or nothing where none rests under `order_id`; this is no
    /// error.
    pub fn cancel_order(&mut self, order_id: u128) -> (r: Result<Option<Order>, OrderBookError>)
        requires
            old(self).wf(),
        ensures
            final(self).wf(),
            final(self).symbol_view() == old(self).symbol_view(),
            final(self).resting() == old(self).resting().remove(order_id),
            r == Ok::<Option<Order>, OrderBookError>(cancelled(old(self).resting(), order_id)),
            final(self).next_arrival() == old(self).next_arrival(),
            final(self).arrivals_kept(old(self)),
    {
        match self.orders.remove(&order_id) {
            Some(order) => {
                match order.side {
                    Side::Buy => {
                        let _ = queue_remove(&mut self.buy_orders, order_id);
                    },
                    Side::Sell => {
                        let _ = queue_remove(&mut self.sell_orders, order_id);
                    },
                }
                Ok(Some(order))
            },
            None => Ok(None),
        }
    }

    /// Lets the order rest: in the table, and in the queue of its side
    /// behind the orders of the same price that arrived no later.
    fn add_order_to_book(&mut self, order: Order)
        requires
            old(self).wf(),
            rests(order, order.id),
            !old(self).resting().contains_key(order.id),
        ensures
            final(self).wf(),
            final(self).symbol_view() == old(self).symbol_view(),
            final(self).resting() == old(self).resting().insert(order.id, order),
            final(self).arrival(order.id) == old(self).next_arrival(),
            final(self).arrivals_kept(old(self)),
            final(self).next_arrival() == (if old(self).next_arrival() < u64::MAX {
                old(self).next_arrival() + 1
            } else {
                old(self).next_arrival()
            }),
    {
        let order_id: u128 = order.id;
        let p = priority_for(&order, self.next_sequence);
        if self.next_sequence < u64::MAX {
            self.next_sequence = self.next_sequence + 1;
        }
        match order.side {
            Side::Buy => {
                let _ = queue_push(&mut self.buy_orders, order_id, p);
            },
            Side::Sell => {
                let _ = queue_push(&mut self.sell_orders, order_id, p);
            },
        }
        let _ = self.orders.insert(order_id, order);
    }

    /// Matches a buy order against the resting sells, lowest price first.
    fn match_buy_order(&mut self, order: &mut Order) -> (trades: Vec<Trade>)
        requires
            old(self).wf(),
            old(order).side == Side::Buy,
            price_valid(*old(order)),
            quantity_valid(*old(order)),
        ensures
            final(self).wf(),
            final(self).symbol_view() == old(self).symbol_view(),
            matched(
                old(self).resting(),
                *old(order),
                final(self).resting(),
                *final(order),
                trades@,
            ),
            final(self).next_arrival() == old(self).next_arrival(),
            final(self).arrivals_kept(old(self)),
            old(self).in_turn(final(self), trades@, Side::Sell),
    {
        let trades = match_side(&mut self.sell_orders, &mut self.orders, order);
        proof {
            let entries0 = queue_entries(old(self).sell_orders);
            let entries = queue_entries(self.sell_orders);
            assert forall|i: int, j: int|
                0 <= i < j < trades@.len() && level(
                    old(self).resting()[(#[trigger] trades@[i]).order_id],
                    old(self).resting()[(#[trigger] trades@[j]).order_id],
                ) implies old(self).arrival(trades@[i].order_id) <= old(self).arrival(
                trades@[j].order_id,
            ) by {
                assert(entries0.contains_key(trades@[i].order_id));
                assert(entries0.contains_key(trades@[j].order_id));
            }
            assert forall|i: int, id: u128|
                0 <= i < trades@.len() && #[trigger] self.resting().contains_key(id) && old(
                    self,
                ).resting().contains_key(id) && old(self).resting()[id].side == Side::Sell && level(
                    old(self).resting()[(#[trigger] trades@[i]).order_id],
                    old(self).resting()[id],
                ) implies old(self).arrival(trades@[i].order_id) <= old(self).arrival(id) by {
                assert(entries0.contains_key(trades@[i].order_id));
                assert(self.resting()[id].side == Side::Sell);
                assert(entries.contains_key(id));
                assert(entries0.contains_key(id));
            }
        }
        trades
    }

    /// Matches a sell order against the resting buys, highest price first.
    fn match_sell_order(&mut self, order: &mut Order) -> (trades: Vec<Trade>)
        requires
            old(self).wf(),
            old(order).side == Side::Sell,
            price_valid(*old(order)),
            quantity_valid(*old(order)),
        ensures
            final(self).wf(),
            final(self).symbol_view() == old(self).symbol_view(),
            matched(
                old(self).resting(),
                *old(order),
                final(self).resting(),
                *final(order),
                trades@,
            ),
            final(self).next_arrival() == old(self).next_arrival(),
            final(self).arrivals_kept(old(self)),
            old(self).in_turn(final(self), trades@, Side::Buy),
    {
        let trades = match_side(&mut self.buy_orders, &mut self.orders, order);
        proof {
            let entries0 = queue_entries(old(self).buy_orders);
            let entries = queue_entries(self.buy_orders);
            assert forall|i: int, j: int|
                0 <= i < j < trades@.len() && level(
                    old(self).resting()[(#[trigger] trades@[i]).order_id],
                    old(self).resting()[(#[trigger] trades@[j]).order_id],
                ) implies old(self).arrival(trades@[i].order_id) <= old(self).arrival(
                trades@[j].order_id,
            ) by {
                assert(entries0.contains_key(trades@[i].order_id));
                assert(entries0.contains_key(trades@[j].order_id));
            }
            assert forall|i: int, id: u128|
                0 <= i < trades@.len() && #[trigger] self.resting().contains_key(id) && old(
                    self,
                ).resting().contains_key(id) && old(self).resting()[id].side == Side::Buy && level(
                    old(self).resting()[(#[trigger] trades@[i]).order_id],
                    old(self).resting()[id],
                ) implies old(self).arrival(trades@[i].order_id) <= old(self).arrival(id) by {
                assert(entries0.contains_key(trades@[i].order_id));
                assert(self.resting()[id].side == Side::Buy);
                assert(entries.contains_key(id));
                assert(entries0.contains_key(id));
            }
        }
        trades
    }

    /// Matches the order against the other side of the book and lets what
    /// is left of a limit order rest. The trades come in the order in which
    /// they were made.
    ///
    /// A limit order whose price is no amount or negative is refused as
    /// `InvalidPrice`; an order with nothing left to fill, or whose
    /// remainder cannot be formed, as `InsufficientQuantity`. A refused
    /// order leaves the book as it was. An order of which nothing is
    /// filled yet has a remainder that can be formed: its quantity.
    pub fn process_order(&mut self, order: Order) -> (r: Result<Vec<Trade>, OrderBookError>)
        requires
            old(self).wf(),
            !old(self).resting().contains_key(order.id),
        ensures
            final(self).wf(),
            final(self).symbol_view() == old(self).symbol_view(),
            !price_valid(order) ==> r == Err::<Vec<Trade>, OrderBookError>(
                OrderBookError::InvalidPrice,
            ),
            price_valid(order) && !quantity_valid(order) ==> r == Err::<
                Vec<Trade>,
                OrderBookError,
            >(OrderBookError::InsufficientQuantity),
            r is Err ==> final(self).resting() == old(self).resting(),
            price_valid(order) && quantity_valid(order) ==> r is Ok,
            price_valid(order) && 0 <= order.filled_quantity@ < order.quantity@
                && order.quantity.subtracts_exactly(order.filled_quantity) ==> r is Ok,
            price_valid(order) && order.quantity.wf() && order.quantity@ > 0
                && order.filled_quantity == crate::decimal::lit(0, 0) ==> r is Ok,
            r matches Ok(trades) ==> processed(
                old(self).resting(),
                order,
                final(self).resting(),
                trades@,
            ),
            final(self).arrivals_kept(old(self)),
            r matches Ok(trades) ==> old(self).in_turn(final(self), trades@, opposite(order.side)),
            final(self).resting().contains_key(order.id) ==> final(self).arrival(order.id) == old(
                self,
            ).next_arrival(),
            final(self).next_arrival() == (if final(self).resting().contains_key(order.id)
                && old(self).next_arrival() < u64::MAX {
                old(self).next_arrival() + 1
            } else {
                old(self).next_arrival()
            }),
    {
        proof {
            if order.quantity.wf() && order.filled_quantity == crate::decimal::lit(0, 0) {
                crate::decimal::lemma_subtracts_zero(order.quantity);
                crate::decimal::lemma_sign(order.filled_quantity);
            }
        }
        let price_ok = match order.order_type {
            OrderType::Market => true,
            OrderType::Limit => order.price.is_wf() && !order.price.is_negative(),
        };
        if !price_ok {
            return Err(OrderBookError::InvalidPrice);
        }
        let quantity_ok = order.quantity.is_wf() && order.filled_quantity.is_wf()
            && !order.filled_quantity.is_negative() && order.filled_quantity.lt(&order.quantity)
            && order.quantity.minus_exact(order.filled_quantity).is_some();
        if !quantity_ok {
            return Err(OrderBookError::InsufficientQuantity);
        }
        let ghost before = self.orders@;
        let mut order = order;
        let ghost incoming = order;
        let trades = match order.side {
            Side::Buy => self.match_buy_order(&mut order),
            Side::Sell => self.match_sell_order(&mut order),
        };
        let ghost matched_table = self.orders@;
        let ghost taker = order;
        let rest = match order.order_type {
            OrderType::Limit => !order.is_filled(),
            OrderType::Market => false,
        };
        if rest {
            proof {
                crate::decimal::lemma_sign(order.price);
            }
            self.add_order_to_book(order);
        }
        proof {
            assert(self.orders@.remove(incoming.id) =~= matched_table);
            assert(matched(before, incoming, self.orders@.remove(incoming.id), taker, trades@));
        }
        Ok(trades)
    }

    /// The order at the head of its side: on the buy side the highest
    /// price, on the sell side the lowest, and at that price the earliest
    /// arrival. Nothing where no order rests on that side.
    pub fn best(&self, side: Side) -> (r: Option<&Order>)
        requires
            self.wf(),
        ensures
            r is None ==> forall|id: u128| #[trigger]
                self.resting().contains_key(id) ==> self.resting()[id].side != side,
            r matches Some(o) ==> self.resting().contains_key(o.id) && self.resting()[o.id] == *o
                && o.side == side,
            r matches Some(o) ==> forall|id: u128| #[trigger]
                self.resting().contains_key(id) && self.resting()[id].side == side ==> no_worse(
                    *o,
                    self.resting()[id],
                ),
            r matches Some(o) ==> forall|id: u128| #[trigger]
                self.resting().contains_key(id) && self.resting()[id].side == side
                    && self.resting()[id].price@ == o.price@ && self.resting()[id].timestamp
                    == o.timestamp ==> self.arrival(o.id) <= self.arrival(id),
    {
        let head = match side {
            Side::Buy => queue_peek(&self.buy_orders),
            Side::Sell => queue_peek(&self.sell_orders),
        };
        let ghost entries = match side {
            Side::Buy => queue_entries(self.buy_orders),
            Side::Sell => queue_entries(self.sell_orders),
        };
        match head {
            None => {
                proof {
                    assert forall|id: u128| #[trigger]
                        self.resting().contains_key(id) implies self.resting()[id].side
                        != side by {
                        if self.resting()[id].side == side {
                            assert(entries.contains_key(id));
                        }
                    }
                }
                None
            },
            Some((id, p)) => {
                let found = self.orders.get(&id);
                proof {
                    assert(entries.contains_key(id));
                    assert forall|k: u128| #[trigger]
                        self.resting().contains_key(k) && self.resting()[k].side
                            == side implies no_worse(self.resting()[id], self.resting()[k]) by {
                        assert(entries.contains_key(k));
                        lemma_priority_order(p, self.resting()[id], entries[k], self.resting()[k]);
                    }
                    assert forall|k: u128| #[trigger]
                        self.resting().contains_key(k) && self.resting()[k].side == side
                            && self.resting()[k].price@ == self.resting()[id].price@
                            && self.resting()[k].timestamp
                            == self.resting()[id].timestamp implies self.arrival(id)
                        <= self.arrival(k) by {
                        assert(entries.contains_key(k));
                        assert(priority_le(entries[k], p));
                    }
                }
                found
            },
        }
    }

    /// Every resting order is a limit order that is filled in part at
    /// most: `0 <= filled < quantity`.
    pub proof fn lemma_resting_order(&self, order_id: u128)
        requires
            self.wf(),
            self.resting().contains_key(order_id),
        ensures
            rests(self.resting()[order_id], order_id),
            self.resting()[order_id].order_type == OrderType::Limit,
            0 <= self.resting()[order_id].filled_quantity@ < self.resting()[order_id].quantity@,
    {
    }
}

} // verus!
