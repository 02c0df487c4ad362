use dex_orderbook::decimal::Decimal;
use dex_orderbook::models::order::{Order, OrderType, Side};
use dex_orderbook::models::trade::Trade;
use dex_orderbook::platform::{nanos_of, now_nanos};

fn limit(side: Side, price: i64, quantity: i64) -> Order {
    Order::new(
        7,
        "BTC/USD".to_string(),
        side,
        OrderType::Limit,
        Decimal::new(price, 0),
        Decimal::new(quantity, 0),
    )
}

#[test]
fn test_order_creation() {
    let user_id: u128 = 42;
    let order = Order::new(
        user_id,
        "BTC/USD".to_string(),
        Side::Buy,
        OrderType::Limit,
        Decimal::new(50000, 0),
        Decimal::new(1, 0),
    );

    assert_eq!(order.user_id, user_id);
    assert_eq!(order.symbol, "BTC/USD");
    assert_eq!(order.side, Side::Buy);
    assert_eq!(order.order_type, OrderType::Limit);
    assert_eq!(order.price, Decimal::new(50000, 0));
    assert_eq!(order.quantity, Decimal::new(1, 0));
    assert_eq!(order.filled_quantity, Decimal::zero());
}

#[test]
fn test_remaining_quantity() {
    let mut order = limit(Side::Buy, 50000, 2);

    assert_eq!(order.remaining_quantity(), Decimal::new(2, 0));

    order.filled_quantity = Decimal::new(1, 0);
    assert_eq!(order.remaining_quantity(), Decimal::new(1, 0));
}

#[test]
fn test_is_filled() {
    let mut order = limit(Side::Buy, 50000, 1);

    assert!(!order.is_filled());

    order.filled_quantity = order.quantity;
    assert!(order.is_filled());
}

#[test]
fn test_trade_creation() {
    let maker_order = limit(Side::Sell, 50000, 1);
    let taker_order = Order::new(
        8,
        "BTC/USD".to_string(),
        Side::Buy,
        OrderType::Market,
        Decimal::new(50000, 0),
        Decimal::new(1, 0),
    );

    let trade = Trade::new(&maker_order, &taker_order, Decimal::new(1, 0));

    assert_eq!(trade.order_id, maker_order.id);
    assert_eq!(trade.price, Decimal::new(50000, 0));
    assert_eq!(trade.quantity, Decimal::new(1, 0));
}

#[test]
fn remaining_quantity_across_scales_is_exact() {
    let mut order = limit(Side::Sell, 10, 3);
    order.quantity = Decimal::new(150, 2);
    order.filled_quantity = Decimal::new(12345678, 8);
    // 1.50 - 0.12345678 = 1.37654322
    assert_eq!(order.remaining_quantity(), Decimal::new(137654322, 8));
    assert!(!order.is_filled());
}

#[test]
fn fresh_orders_get_distinct_identifiers() {
    let a = limit(Side::Buy, 1, 1);
    let b = limit(Side::Buy, 1, 1);
    assert_ne!(a.id, b.id);
    assert_eq!(a.created_at, a.timestamp);
    assert_eq!(a.updated_at, a.timestamp);
    assert!(a.timestamp > 0);
}

#[test]
fn decimal_equality_ignores_scale() {
    assert_eq!(Decimal::new(1, 0), Decimal::new(100, 2));
    assert_ne!(Decimal::new(1, 0), Decimal::new(101, 2));
    assert!(Decimal::new(-5, 1).lt(&Decimal::new(0, 0)));
    assert!(Decimal::new(25, 2).lt(&Decimal::new(3, 1)));
    assert!(Decimal::new(-25, 2).gt(&Decimal::new(-3, 1)));
    assert!(Decimal::new(-25, 2).is_negative());
    assert_eq!(Decimal::new(-25, 2).abs(), Decimal::new(25, 2));
}

#[test]
fn decimal_order_key_splits_whole_and_fraction() {
    assert_eq!(Decimal::new(15, 1).order_key(), (1, 5_000_000_000_000_000_000_000_000_000));
    assert_eq!(Decimal::new(-15, 1).order_key(), (-2, 5_000_000_000_000_000_000_000_000_000));
    assert_eq!(Decimal::new(-2, 0).order_key(), (-2, 0));
    assert_eq!(Decimal::new(50000, 0).order_key(), (50000, 0));
}

#[test]
fn sums_and_differences_without_rounding() {
    let two_to_70 = Decimal { mantissa: 1_180_591_620_717_411_303_424, scale: 0 };
    let half = Decimal::new(5, 1);
    // mantissas above 64 bits at different scales
    assert_eq!(
        two_to_70.plus_exact(half),
        Some(Decimal { mantissa: 11_805_916_207_174_113_034_245, scale: 1 })
    );
    assert_eq!(
        two_to_70.minus_exact(half),
        Some(Decimal { mantissa: 11_805_916_207_174_113_034_235, scale: 1 })
    );
    assert_eq!(
        half.minus_exact(two_to_70),
        Some(Decimal { mantissa: -11_805_916_207_174_113_034_235, scale: 1 })
    );
    // scales 25 places apart
    assert_eq!(
        Decimal::new(1, 0).plus_exact(Decimal::new(1, 25)),
        Some(Decimal { mantissa: 10_000_000_000_000_000_000_000_001, scale: 25 })
    );
    assert_eq!(
        Decimal::new(1, 0).minus_exact(Decimal::new(1, 28)),
        Some(Decimal { mantissa: 9_999_999_999_999_999_999_999_999_999, scale: 28 })
    );
    // a zero operand
    assert_eq!(Decimal::new(0, 5).plus_exact(Decimal::new(12, 1)), Some(Decimal::new(12, 1)));
    assert_eq!(Decimal::new(0, 0).minus_exact(Decimal::new(12, 1)), Some(Decimal::new(-12, 1)));
}

#[test]
fn sums_that_need_rounding_are_not_formed() {
    let largest = Decimal { mantissa: 79_228_162_514_264_337_593_543_950_335, scale: 0 };
    let seventy_thousand_quadrillion =
        Decimal { mantissa: 70_000_000_000_000_000_000_000_000_000, scale: 0 };
    // 7 * 10^28 - 0.5 has 30 digits
    assert_eq!(seventy_thousand_quadrillion.minus_exact(Decimal::new(5, 1)), None);
    assert_eq!(seventy_thousand_quadrillion.plus_exact(Decimal::new(5, 1)), None);
    // beyond 96 bits
    assert_eq!(largest.plus_exact(Decimal::new(1, 0)), None);
    assert_eq!(largest.plus_exact(Decimal::new(0, 0)), Some(largest));
    assert_eq!(largest.minus_exact(largest), Some(Decimal::new(0, 0)));
    assert_eq!(Decimal::new(1, 28).plus_exact(Decimal::new(8, 0)), None);
}

#[test]
fn is_sum_of_compares_values() {
    assert!(Decimal::new(30, 1).is_sum_of(&Decimal::new(125, 2), &Decimal::new(175, 2)));
    assert!(!Decimal::new(30, 1).is_sum_of(&Decimal::new(125, 2), &Decimal::new(176, 2)));
    assert!(Decimal::new(-5, 1).is_sum_of(&Decimal::new(15, 1), &Decimal::new(-2, 0)));
    assert!(Decimal::new(1, 0).is_sum_of(&Decimal::new(5, 1), &Decimal::new(5, 1)));
}

#[test]
fn clock_readings_count_nanoseconds() {
    assert_eq!(nanos_of(0, 0), 0);
    assert_eq!(nanos_of(1, 5), 1_000_000_005);
    assert_eq!(nanos_of(-1, 999_999_999), -1);
    assert_eq!(nanos_of(1_700_000_000, 123_456_789), 1_700_000_000_123_456_789);
    // a leap second is read as a second of up to two thousand million nanoseconds
    assert_eq!(nanos_of(59, 1_999_999_999), 60_999_999_999);
    assert_eq!(nanos_of(i64::MAX, u32::MAX), 9_223_372_036_854_775_807_000_000_000 + 4_294_967_295);
}

#[test]
fn the_clock_does_not_run_backwards_by_years() {
    let first = now_nanos();
    let second = now_nanos();
    // after the year 2020, and the second reading within a minute of the first
    assert!(first > 1_577_836_800_000_000_000);
    assert!(second - first < 60_000_000_000);
    assert!(first - second < 60_000_000_000);
}
