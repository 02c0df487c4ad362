use dex_orderbook::decimal::Decimal;
use dex_orderbook::engine::orderbook::OrderBook;
use dex_orderbook::models::order::{Order, OrderType, Side};
use dex_orderbook::utils::error::OrderBookError;

fn order(side: Side, kind: OrderType, price: Decimal, quantity: Decimal) -> Order {
    Order::new(1, "BTC/USD".to_string(), side, kind, price, quantity)
}

fn limit(side: Side, price: i64, quantity: i64) -> Order {
    order(side, OrderType::Limit, Decimal::new(price, 0), Decimal::new(quantity, 0))
}

#[test]
fn test_order_book_creation() {
    let order_book = OrderBook::new("BTC/USD".to_string());
    assert_eq!(order_book.symbol(), "BTC/USD");
    assert_eq!(order_book.len(), 0);
}

#[test]
fn sell_limit_rests_in_empty_book() {
    let mut book = OrderBook::new("BTC/USD".to_string());
    let sell = limit(Side::Sell, 50000, 1);
    let id = sell.id;
    let trades = book.process_order(sell).unwrap();
    assert!(trades.is_empty());
    assert_eq!(book.len(), 1);
    assert!(book.contains_order(id));
    assert_eq!(book.best(Side::Sell).unwrap().id, id);
    assert!(book.best(Side::Buy).is_none());
}

#[test]
fn matching_buy_takes_resting_sell() {
    let mut book = OrderBook::new("BTC/USD".to_string());
    let sell = limit(Side::Sell, 50000, 1);
    let sell_id = sell.id;
    assert!(book.process_order(sell).unwrap().is_empty());

    let buy = limit(Side::Buy, 50000, 1);
    let buy_id = buy.id;
    let trades = book.process_order(buy).unwrap();
    assert_eq!(trades.len(), 1);
    assert_eq!(trades[0].order_id, sell_id);
    assert_eq!(trades[0].price, Decimal::new(50000, 0));
    assert_eq!(trades[0].quantity, Decimal::new(1, 0));
    assert_eq!(book.len(), 0);
    assert!(!book.contains_order(sell_id));
    assert!(!book.contains_order(buy_id));
}

#[test]
fn buy_takes_lowest_price_first_then_earliest() {
    let mut book = OrderBook::new("BTC/USD".to_string());
    let mut high = limit(Side::Sell, 102, 1);
    let mut early = limit(Side::Sell, 100, 1);
    let mut late = limit(Side::Sell, 100, 1);
    high.timestamp = 1;
    early.timestamp = 2;
    late.timestamp = 3;
    let (high_id, early_id, late_id) = (high.id, early.id, late.id);
    book.process_order(late).unwrap();
    book.process_order(high).unwrap();
    book.process_order(early).unwrap();
    assert_eq!(book.best(Side::Sell).unwrap().id, early_id);

    let buy = limit(Side::Buy, 101, 5);
    let buy_id = buy.id;
    let trades = book.process_order(buy).unwrap();
    assert_eq!(trades.len(), 2);
    assert_eq!(trades[0].order_id, early_id);
    assert_eq!(trades[1].order_id, late_id);
    assert_eq!(trades[0].price, Decimal::new(100, 0));
    // 102 is above the limit: it stays, and the rest of the buy rests
    assert!(book.contains_order(high_id));
    assert_eq!(book.best(Side::Sell).unwrap().id, high_id);
    let resting = book.best(Side::Buy).unwrap();
    assert_eq!(resting.id, buy_id);
    assert_eq!(resting.filled_quantity, Decimal::new(2, 0));
    assert_eq!(resting.remaining_quantity(), Decimal::new(3, 0));
}

#[test]
fn sell_takes_highest_bid_first() {
    let mut book = OrderBook::new("BTC/USD".to_string());
    let low = limit(Side::Buy, 99, 1);
    let high = limit(Side::Buy, 101, 1);
    let (low_id, high_id) = (low.id, high.id);
    book.process_order(low).unwrap();
    book.process_order(high).unwrap();
    assert_eq!(book.best(Side::Buy).unwrap().id, high_id);
    let trades = book.process_order(limit(Side::Sell, 100, 2)).unwrap();
    assert_eq!(trades.len(), 1);
    assert_eq!(trades[0].order_id, high_id);
    assert_eq!(trades[0].price, Decimal::new(101, 0));
    assert!(book.contains_order(low_id));
    assert_eq!(book.len(), 2);
}

#[test]
fn partial_fill_leaves_maker_resting() {
    let mut book = OrderBook::new("BTC/USD".to_string());
    let sell = order(Side::Sell, OrderType::Limit, Decimal::new(100, 0), Decimal::new(25, 1));
    let sell_id = sell.id;
    book.process_order(sell).unwrap();
    let trades = book
        .process_order(order(Side::Buy, OrderType::Limit, Decimal::new(100, 0), Decimal::new(1, 0)))
        .unwrap();
    assert_eq!(trades.len(), 1);
    assert_eq!(trades[0].quantity, Decimal::new(1, 0));
    let maker = book.best(Side::Sell).unwrap();
    assert_eq!(maker.id, sell_id);
    assert_eq!(maker.filled_quantity, Decimal::new(1, 0));
    assert_eq!(maker.remaining_quantity(), Decimal::new(15, 1));
    assert_eq!(book.len(), 1);
}

#[test]
fn market_order_on_empty_book_is_dropped() {
    let mut book = OrderBook::new("BTC/USD".to_string());
    let market = order(Side::Buy, OrderType::Market, Decimal::new(0, 0), Decimal::new(1, 0));
    let id = market.id;
    let trades = book.process_order(market).unwrap();
    assert!(trades.is_empty());
    assert_eq!(book.len(), 0);
    assert!(!book.contains_order(id));
}

#[test]
fn market_order_sweeps_every_price_and_drops_the_rest() {
    let mut book = OrderBook::new("BTC/USD".to_string());
    book.process_order(limit(Side::Sell, 100, 1)).unwrap();
    book.process_order(limit(Side::Sell, 500, 1)).unwrap();
    let market = order(Side::Buy, OrderType::Market, Decimal::new(1, 0), Decimal::new(5, 0));
    let trades = book.process_order(market).unwrap();
    assert_eq!(trades.len(), 2);
    assert_eq!(trades[0].price, Decimal::new(100, 0));
    assert_eq!(trades[1].price, Decimal::new(500, 0));
    assert_eq!(book.len(), 0);
}

#[test]
fn zero_quantity_is_refused() {
    let mut book = OrderBook::new("BTC/USD".to_string());
    let r = book.process_order(limit(Side::Buy, 100, 0));
    assert_eq!(r.unwrap_err(), OrderBookError::InsufficientQuantity);
    assert_eq!(book.len(), 0);
}

#[test]
fn negative_price_is_refused() {
    let mut book = OrderBook::new("BTC/USD".to_string());
    let r = book.process_order(limit(Side::Sell, -1, 1));
    assert_eq!(r.unwrap_err(), OrderBookError::InvalidPrice);
    assert_eq!(book.len(), 0);
}

#[test]
fn cancel_is_idempotent() {
    let mut book = OrderBook::new("BTC/USD".to_string());
    let sell = limit(Side::Sell, 50000, 1);
    let id = sell.id;
    book.process_order(sell).unwrap();
    let first = book.cancel_order(id).unwrap();
    assert_eq!(first.unwrap().id, id);
    assert!(book.cancel_order(id).unwrap().is_none());
    assert_eq!(book.len(), 0);
    assert!(book.best(Side::Sell).is_none());
    // the cancelled order no longer trades
    assert!(book.process_order(limit(Side::Buy, 50000, 1)).unwrap().is_empty());
}

#[test]
fn self_trade_is_permitted() {
    let mut book = OrderBook::new("BTC/USD".to_string());
    book.process_order(limit(Side::Sell, 10, 1)).unwrap();
    let trades = book.process_order(limit(Side::Buy, 10, 1)).unwrap();
    assert_eq!(trades.len(), 1);
}

#[test]
fn error_messages() {
    assert_eq!(OrderBookError::OrderNotFound.message(), "Order not found");
    assert_eq!(OrderBookError::InsufficientQuantity.message(), "Insufficient quantity");
    assert_eq!(OrderBookError::InvalidPrice.message(), "Invalid price");
}

#[test]
fn large_and_finely_divided_quantities_are_matched() {
    let mut book = OrderBook::new("BTC/USD".to_string());
    // ten thousand million and more, and twelve decimal places
    let big = order(
        Side::Sell,
        OrderType::Limit,
        Decimal::new(100, 0),
        Decimal::new(25_000_000_000, 0),
    );
    let fine = order(
        Side::Sell,
        OrderType::Limit,
        Decimal::new(101, 0),
        Decimal::new(1_000_000_000_001, 12),
    );
    let (big_id, fine_id) = (big.id, fine.id);
    assert!(book.process_order(big).unwrap().is_empty());
    assert!(book.process_order(fine).unwrap().is_empty());

    let buy = order(
        Side::Buy,
        OrderType::Limit,
        Decimal::new(101, 0),
        Decimal::new(25_000_000_000_5, 1),
    );
    let trades = book.process_order(buy).unwrap();
    assert_eq!(trades.len(), 2);
    assert_eq!(trades[0].order_id, big_id);
    assert_eq!(trades[0].quantity, Decimal::new(25_000_000_000, 0));
    assert_eq!(trades[1].order_id, fine_id);
    assert_eq!(trades[1].quantity, Decimal::new(5, 1));
    assert!(!book.contains_order(big_id));
    let rest = book.best(Side::Sell).unwrap();
    assert_eq!(rest.id, fine_id);
    assert_eq!(rest.filled_quantity, Decimal::new(5, 1));
    assert_eq!(rest.remaining_quantity(), Decimal::new(500_000_000_001, 12));
    assert!(book.best(Side::Buy).is_none());
}

#[test]
fn a_fill_that_would_need_rounding_is_not_made() {
    let mut book = OrderBook::new("BTC/USD".to_string());
    let huge = order(
        Side::Sell,
        OrderType::Limit,
        Decimal::new(100, 0),
        Decimal { mantissa: 70_000_000_000_000_000_000_000_000_000, scale: 0 },
    );
    let huge_id = huge.id;
    assert!(book.process_order(huge).unwrap().is_empty());
    // what would be left of the sell, 7 * 10^28 - 0.5, has 30 digits
    let buy = order(Side::Buy, OrderType::Limit, Decimal::new(100, 0), Decimal::new(5, 1));
    let buy_id = buy.id;
    assert!(book.process_order(buy).unwrap().is_empty());
    assert_eq!(book.best(Side::Sell).unwrap().filled_quantity, Decimal::zero());
    assert!(book.contains_order(buy_id));
    // a whole quantity fills
    let trades = book.process_order(limit(Side::Buy, 100, 3)).unwrap();
    assert_eq!(trades.len(), 1);
    assert_eq!(trades[0].order_id, huge_id);
    assert_eq!(trades[0].quantity, Decimal::new(3, 0));
}

#[test]
fn orders_of_one_price_and_time_are_matched_in_the_order_of_arrival() {
    let mut book = OrderBook::new("BTC/USD".to_string());
    let mut ids = Vec::new();
    for _ in 0..6 {
        let mut sell = limit(Side::Sell, 100, 1);
        sell.timestamp = 1_000;
        ids.push(sell.id);
        book.process_order(sell).unwrap();
    }
    assert_eq!(book.best(Side::Sell).unwrap().id, ids[0]);
    let trades = book.process_order(limit(Side::Buy, 100, 4)).unwrap();
    assert_eq!(trades.len(), 4);
    for i in 0..4 {
        assert_eq!(trades[i].order_id, ids[i]);
    }
    assert_eq!(book.best(Side::Sell).unwrap().id, ids[4]);
    book.cancel_order(ids[4]).unwrap();
    assert_eq!(book.best(Side::Sell).unwrap().id, ids[5]);
}

#[test]
fn an_order_with_a_negative_fill_is_refused() {
    let mut book = OrderBook::new("BTC/USD".to_string());
    let mut o = limit(Side::Buy, 100, 1);
    o.filled_quantity = Decimal::new(-1, 0);
    assert_eq!(book.process_order(o).unwrap_err(), OrderBookError::InsufficientQuantity);
    let mut filled = limit(Side::Buy, 100, 1);
    filled.filled_quantity = Decimal::new(1, 0);
    assert_eq!(book.process_order(filled).unwrap_err(), OrderBookError::InsufficientQuantity);
    assert_eq!(book.len(), 0);
}
