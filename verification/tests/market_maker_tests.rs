use dex_orderbook::decimal::{div_opt, mul_opt, sub_opt, Decimal};
use dex_orderbook::market_maker::amm::AutomatedMarketMaker;
use dex_orderbook::market_maker::liquidity_pool::LiquidityPool;
use dex_orderbook::market_maker::price_impact::PriceImpactCalculator;
use dex_orderbook::market_maker::slippage::SlippageProtection;
use dex_orderbook::market_maker::types::MarketMakerError;

fn dec(mantissa: i64, scale: u32) -> Decimal {
    Decimal::new(mantissa, scale)
}

fn sub(a: Decimal, b: Decimal) -> Decimal {
    sub_opt(Some(a), Some(b)).unwrap()
}

fn div(a: Decimal, b: Decimal) -> Decimal {
    div_opt(Some(a), Some(b)).unwrap()
}

fn usdc_eth(reserve_a: i64, reserve_b: i64) -> LiquidityPool {
    LiquidityPool::new(
        "USDC".to_string(),
        "ETH".to_string(),
        dec(reserve_a, 0),
        dec(reserve_b, 0),
        dec(3, 3),
    )
}

fn amm_with_pool() -> AutomatedMarketMaker {
    let mut amm = AutomatedMarketMaker::new();
    amm.create_pool("USDC".to_string(), "ETH".to_string(), dec(1000000, 0), dec(500, 0), dec(3, 3))
        .unwrap();
    amm
}

// ---- liquidity pool ----

#[test]
fn test_pool_info() {
    let pool = usdc_eth(1000000, 500);

    let info = pool.pool_info();
    assert_eq!(info.token_a, "USDC");
    assert_eq!(info.token_b, "ETH");
    assert_eq!(info.reserve_a, dec(1000000, 0));
    assert_eq!(info.reserve_b, dec(500, 0));
    assert_eq!(info.fee_percentage, dec(3, 3));
}

#[test]
fn test_add_liquidity() {
    let mut pool = usdc_eth(0, 0);

    let provider_id: u128 = 11;
    let result = pool.add_liquidity(provider_id, dec(1000, 0), dec(1, 0)).unwrap();

    assert_eq!(result.token_a_amount, dec(1000, 0));
    assert_eq!(result.token_b_amount, dec(1, 0));
    assert_eq!(result.share_percentage, Decimal::one());
}

#[test]
fn test_remove_liquidity() {
    let mut pool = usdc_eth(0, 0);

    let provider_id: u128 = 11;
    pool.add_liquidity(provider_id, dec(1000, 0), dec(1, 0)).unwrap();

    let removed = pool.remove_liquidity(provider_id).unwrap();

    assert_eq!(removed.token_a_amount, dec(1000, 0));
    assert_eq!(removed.token_b_amount, dec(1, 0));
    assert_eq!(pool.reserve_a(), dec(0, 0));
    assert_eq!(pool.reserve_b(), dec(0, 0));
}

#[test]
fn deposit_into_a_pool_with_reserves_gets_its_share() {
    let mut pool = usdc_eth(1000, 1000);
    let position = pool.add_liquidity(5, dec(100, 0), dec(100, 0)).unwrap();
    // (100 + 100) / (1000 + 1000)
    assert_eq!(position.share_percentage, dec(1, 1));
    assert_eq!(position.provider_id, 5);
    assert_eq!(position.pool_id, pool.pool_info().id);
    assert_eq!(pool.reserve_a(), dec(1100, 0));
    assert_eq!(pool.reserve_b(), dec(1100, 0));
    assert!(pool.has_position(5));
}

#[test]
fn deposit_then_withdrawal_restores_the_reserves() {
    let mut pool = usdc_eth(1000000, 500);
    pool.add_liquidity(9, dec(12345678, 4), dec(5, 1)).unwrap();
    assert_eq!(pool.reserve_a(), dec(10012345678, 4));
    assert_eq!(pool.reserve_b(), dec(5005, 1));
    pool.remove_liquidity(9).unwrap();
    assert_eq!(pool.reserve_a(), dec(1000000, 0));
    assert_eq!(pool.reserve_b(), dec(500, 0));
    assert!(!pool.has_position(9));
}

#[test]
fn withdrawal_without_a_position_fails() {
    let mut pool = usdc_eth(10, 10);
    assert_eq!(pool.remove_liquidity(1).unwrap_err(), MarketMakerError::InsufficientLiquidity);
    assert_eq!(pool.reserve_a(), dec(10, 0));
}

#[test]
fn withdrawal_that_the_reserve_does_not_hold_fails() {
    let mut pool = usdc_eth(0, 0);
    pool.add_liquidity(1, dec(100, 0), dec(100, 0)).unwrap();
    pool.execute_swap("USDC", dec(0, 0), dec(60, 0)).unwrap();
    assert_eq!(pool.reserve_b(), dec(40, 0));
    assert_eq!(pool.remove_liquidity(1).unwrap_err(), MarketMakerError::InsufficientLiquidity);
    assert_eq!(pool.reserve_a(), dec(100, 0));
    assert_eq!(pool.reserve_b(), dec(40, 0));
    assert!(pool.has_position(1));
}

#[test]
fn swap_moves_both_reserves() {
    let mut pool = usdc_eth(1000, 500);
    pool.execute_swap("USDC", dec(100, 0), dec(25, 1)).unwrap();
    assert_eq!(pool.reserve_a(), dec(1100, 0));
    assert_eq!(pool.reserve_b(), dec(4975, 1));
    // any other name pays into the second token
    pool.execute_swap("ETH", dec(5, 1), dec(100, 0)).unwrap();
    assert_eq!(pool.reserve_a(), dec(1000, 0));
    assert_eq!(pool.reserve_b(), dec(498, 0));
}

#[test]
fn swap_that_would_empty_a_reserve_below_zero_fails() {
    let mut pool = usdc_eth(1000, 500);
    let r = pool.execute_swap("USDC", dec(1, 0), dec(501, 0));
    assert_eq!(r.unwrap_err(), MarketMakerError::InsufficientLiquidity);
    assert_eq!(pool.reserve_a(), dec(1000, 0));
    assert_eq!(pool.reserve_b(), dec(500, 0));
}

#[test]
fn fee_is_amount_times_fee_percentage() {
    let pool = usdc_eth(1000000, 500);
    assert_eq!(pool.calculate_fee(dec(50000, 0)).unwrap(), dec(150, 0));
    assert_eq!(pool.fee_percentage(), dec(3, 3));
    assert_eq!(pool.token_a(), "USDC");
    assert_eq!(pool.token_b(), "ETH");
}

// ---- price impact ----

#[test]
fn test_decimal_sqrt() {
    let calculator = PriceImpactCalculator::new();

    let sqrt4 = calculator.decimal_sqrt(dec(4, 0)).unwrap();
    assert!(sub(sqrt4, dec(2, 0)).abs().lt(&dec(1, 2)));

    let sqrt9 = calculator.decimal_sqrt(dec(9, 0)).unwrap();
    assert!(sub(sqrt9, dec(3, 0)).abs().lt(&dec(1, 2)));

    let sqrt2 = calculator.decimal_sqrt(dec(2, 0)).unwrap();
    assert!(sub(sqrt2, dec(14142135624, 10)).abs().lt(&dec(1, 2)));
}

#[test]
fn square_roots_to_eight_places() {
    let calculator = PriceImpactCalculator::new();
    assert_eq!(calculator.decimal_sqrt(dec(0, 0)).unwrap(), dec(0, 0));
    assert_eq!(calculator.decimal_sqrt(dec(4, 0)).unwrap(), dec(2, 0));
    assert_eq!(calculator.decimal_sqrt(dec(9, 0)).unwrap(), dec(3, 0));
    assert_eq!(calculator.decimal_sqrt(dec(2, 0)).unwrap(), dec(141421356, 8));
    assert_eq!(calculator.decimal_sqrt(dec(2000, 0)).unwrap(), dec(4472135955, 8));
    assert_eq!(calculator.decimal_sqrt(dec(1, 8)).unwrap(), dec(1, 4));
    assert_eq!(calculator.decimal_sqrt(dec(100000000, 0)).unwrap(), dec(10000, 0));
}

#[test]
fn square_root_is_good_to_eight_places_and_no_further() {
    let calculator = PriceImpactCalculator::new();
    let root = calculator.decimal_sqrt(dec(5, 0)).unwrap();
    assert_eq!(root, dec(223606798, 8));
    let square = mul_opt(Some(root), Some(root)).unwrap();
    // 2.23606798 * 2.23606798
    assert_eq!(square, Decimal { mantissa: 50000000111812804, scale: 16 });
    let off = sub(square, dec(5, 0)).abs();
    assert!(off.gt(&dec(1, 8)));
    assert!(off.lt(&dec(2, 8)));
}

#[test]
fn test_normal_price_impact() {
    let calculator = PriceImpactCalculator::new();

    let impact = calculator.calculate_price_impact(dec(100, 0), dec(10000, 0), dec(1, 0)).unwrap();
    assert!(impact.lt(&dec(2, 2)));

    let impact = calculator.calculate_price_impact(dec(500, 0), dec(10000, 0), dec(1, 0)).unwrap();
    assert!(impact.lt(&dec(10, 2)));
}

#[test]
fn test_large_order_impact() {
    let calculator = PriceImpactCalculator::new();

    let impact = calculator.calculate_price_impact(dec(1500, 0), dec(10000, 0), dec(11, 1)).unwrap();
    assert!(impact.gt(&dec(5, 2)));
    assert!(impact.lt(&dec(25, 2)));
}

#[test]
fn test_max_impact_threshold() {
    let calculator = PriceImpactCalculator::new();

    let result = calculator.calculate_price_impact(dec(5000, 0), dec(10000, 0), dec(20, 1));
    assert!(result.is_err());
    assert!(matches!(result.unwrap_err(), MarketMakerError::PriceImpactTooHigh));
}

#[test]
fn test_output_estimation() {
    let calculator = PriceImpactCalculator::new();

    let (output, impact) = calculator
        .estimate_output_with_impact(dec(100, 0), dec(10000, 0), dec(10000, 0))
        .unwrap();

    assert!(output.gt(&dec(90, 0)));
    assert!(impact.lt(&dec(1, 1)));

    let (output, impact) = calculator
        .estimate_output_with_impact(dec(100, 0), dec(20000, 0), dec(10000, 0))
        .unwrap();

    assert!(output.gt(&dec(45, 0)));
    assert!(impact.gt(&dec(1, 3)));
}

#[test]
fn test_custom_config() {
    let calculator = PriceImpactCalculator::with_config(dec(5, 2), dec(20, 1));

    let result = calculator.calculate_price_impact(dec(1000, 0), dec(10000, 0), dec(15, 1));
    assert!(result.is_err());
}

#[test]
fn base_impact_of_a_small_order() {
    let calculator = PriceImpactCalculator::new();
    // 100 / (1800 + 2 * 100)
    let impact = calculator.calculate_price_impact(dec(100, 0), dec(1800, 0), dec(7, 0)).unwrap();
    assert_eq!(impact, dec(5, 2));
}

#[test]
fn adjusted_impact_of_a_large_order() {
    let calculator = PriceImpactCalculator::with_config(dec(1, 0), dec(2, 0));
    // 500 / 2000 * (1 + (500 / 1000 - 0.1) * 2 * 1)
    let impact = calculator.calculate_price_impact(dec(500, 0), dec(1000, 0), dec(1, 0)).unwrap();
    assert_eq!(impact, dec(45, 2));
    // a tenth of the reserve is not above it
    let impact = calculator.calculate_price_impact(dec(100, 0), dec(1000, 0), dec(1, 0)).unwrap();
    assert_eq!(impact, div(dec(1, 0), dec(12, 0)));
}

#[test]
fn impact_at_the_limit_passes() {
    let calculator = PriceImpactCalculator::with_config(dec(5, 2), dec(1, 0));
    assert_eq!(
        calculator.calculate_price_impact(dec(100, 0), dec(1800, 0), dec(1, 0)).unwrap(),
        dec(5, 2)
    );
    let stricter = PriceImpactCalculator::with_config(dec(49, 3), dec(1, 0));
    assert_eq!(
        stricter.calculate_price_impact(dec(100, 0), dec(1800, 0), dec(1, 0)).unwrap_err(),
        MarketMakerError::PriceImpactTooHigh
    );
}

#[test]
fn zero_reserve_has_no_liquidity() {
    let calculator = PriceImpactCalculator::new();
    assert_eq!(
        calculator.calculate_price_impact(dec(1, 0), dec(0, 0), dec(1, 0)).unwrap_err(),
        MarketMakerError::InsufficientLiquidity
    );
    assert_eq!(
        calculator.estimate_output_with_impact(dec(1, 0), dec(10, 0), dec(0, 0)).unwrap_err(),
        MarketMakerError::InsufficientLiquidity
    );
    assert_eq!(
        calculator.estimate_output_with_impact(dec(1, 0), dec(0, 0), dec(10, 0)).unwrap_err(),
        MarketMakerError::InsufficientLiquidity
    );
}

#[test]
fn estimated_output_after_impact() {
    let calculator = PriceImpactCalculator::new();
    // impact 100 / 2000 = 0.05; ideal 1900 - 1800 * 1900 / 1900 = 100;
    // output 100 * (1 - 0.05 * 0.5)
    let (output, impact) = calculator
        .estimate_output_with_impact(dec(100, 0), dec(1800, 0), dec(1900, 0))
        .unwrap();
    assert_eq!(impact, dec(5, 2));
    assert_eq!(output, dec(975, 1));
}

#[test]
fn estimate_from_a_missing_depth_is_refused() {
    let calculator = PriceImpactCalculator::new();
    let r = calculator.estimate_from_depth(dec(100, 0), dec(1800, 0), dec(1900, 0), None);
    assert_eq!(r.unwrap_err(), MarketMakerError::PriceImpactTooHigh);
    assert_eq!(calculator.limit_impact(None).unwrap_err(), MarketMakerError::PriceImpactTooHigh);
    assert_eq!(calculator.limit_impact(Some(dec(25, 2))).unwrap(), dec(25, 2));
    assert_eq!(
        calculator.limit_impact(Some(dec(251, 3))).unwrap_err(),
        MarketMakerError::PriceImpactTooHigh
    );
}

// ---- slippage ----

#[test]
fn slippage_test_slippage_protection() {
    let protection = SlippageProtection::new(dec(2, 2));

    let result = protection.check_slippage(dec(100, 0), dec(98, 0));
    assert!(result.is_ok());

    let result = protection.check_slippage(dec(100, 0), dec(97, 0));
    assert!(result.is_err());
}

#[test]
fn slippage_guard_edges() {
    let protection = SlippageProtection::new(dec(2, 2));
    assert_eq!(
        protection.check_slippage(dec(100, 0), dec(97, 0)).unwrap_err(),
        MarketMakerError::SlippageExceeded
    );
    // an output below the least output has a negative slippage, which passes
    assert!(protection.check_slippage(dec(90, 0), dec(100, 0)).is_ok());
    // no slippage can be formed for an output of zero
    assert_eq!(
        protection.check_slippage(dec(0, 0), dec(1, 0)).unwrap_err(),
        MarketMakerError::SlippageExceeded
    );
    assert!(protection.judge(Some(dec(2, 2))).is_ok());
    assert!(protection.judge(Some(dec(21, 3))).is_err());
    assert!(protection.judge(None).is_err());
}

// ---- market maker ----

#[test]
fn test_pool_creation() {
    let mut amm = AutomatedMarketMaker::new();

    let pool = amm
        .create_pool("USDC".to_string(), "ETH".to_string(), dec(1000000, 0), dec(500, 0), dec(3, 3))
        .unwrap();

    assert_eq!(pool.token_a, "USDC");
    assert_eq!(pool.token_b, "ETH");
    assert_eq!(pool.reserve_a, dec(1000000, 0));
    assert_eq!(pool.reserve_b, dec(500, 0));
}

#[test]
fn test_liquidity_provision() {
    let mut amm = amm_with_pool();

    let provider_id: u128 = 21;
    let position = amm.add_liquidity("USDC-ETH", provider_id, dec(10000, 0), dec(5, 0)).unwrap();

    assert_eq!(position.token_a_amount, dec(10000, 0));
    assert_eq!(position.token_b_amount, dec(5, 0));
}

#[test]
fn pool_keys_are_the_token_names_with_a_hyphen() {
    let mut amm = amm_with_pool();
    assert!(amm.get_pool_info("USDC-ETH").is_ok());
    assert_eq!(amm.get_pool_info("USDC/ETH").unwrap_err(), MarketMakerError::InvalidPoolParameters);
    assert_eq!(amm.get_pool_info("ETH-USDC").unwrap_err(), MarketMakerError::InvalidPoolParameters);
    // the same pair again is refused, the pair the other way round is another pool
    let again =
        amm.create_pool("USDC".to_string(), "ETH".to_string(), dec(1, 0), dec(1, 0), dec(3, 3));
    assert_eq!(again.unwrap_err(), MarketMakerError::InvalidPoolParameters);
    assert_eq!(amm.get_pool_info("USDC-ETH").unwrap().reserve_a, dec(1000000, 0));
    amm.create_pool("ETH".to_string(), "USDC".to_string(), dec(2, 0), dec(3, 0), dec(3, 3)).unwrap();
    assert_eq!(amm.get_pool_info("ETH-USDC").unwrap().reserve_b, dec(3, 0));
    assert_eq!(amm.get_pool_info("USDC-ETH").unwrap().reserve_b, dec(500, 0));
}

#[test]
fn invalid_pool_parameters_are_refused() {
    let mut amm = AutomatedMarketMaker::new();
    let negative =
        amm.create_pool("A".to_string(), "B".to_string(), dec(-1, 0), dec(1, 0), dec(3, 3));
    assert_eq!(negative.unwrap_err(), MarketMakerError::InvalidPoolParameters);
    let fee_of_one =
        amm.create_pool("A".to_string(), "B".to_string(), dec(1, 0), dec(1, 0), dec(1, 0));
    assert_eq!(fee_of_one.unwrap_err(), MarketMakerError::InvalidPoolParameters);
    assert!(amm.get_pool_info("A-B").is_err());
}

#[test]
fn operations_on_an_unknown_pool_fail() {
    let mut amm = amm_with_pool();
    assert_eq!(
        amm.add_liquidity("BTC-ETH", 1, dec(1, 0), dec(1, 0)).unwrap_err(),
        MarketMakerError::InvalidPoolParameters
    );
    assert_eq!(
        amm.quote("BTC-ETH", "BTC", dec(1, 0)).unwrap_err(),
        MarketMakerError::InvalidPoolParameters
    );
    assert_eq!(
        amm.swap("USDC/ETH", "USDC", dec(50000, 0), dec(23, 0)).unwrap_err(),
        MarketMakerError::InvalidPoolParameters
    );
}

#[test]
fn quote_gives_gross_output_impact_and_fee() {
    let amm = amm_with_pool();
    let quote = amm.quote("USDC-ETH", "USDC", dec(50000, 0)).unwrap();
    assert_eq!(quote.input_amount, dec(50000, 0));
    assert!(quote.output_amount.gt(&dec(23, 0)));
    assert!(quote.output_amount.lt(&dec(24, 0)));
    assert!(quote.price_impact.gt(&dec(1, 2)));
    assert!(quote.price_impact.le(&dec(25, 2)));
    assert_eq!(quote.fee_amount, dec(150, 0));
    // quoting changes nothing
    assert_eq!(amm.get_pool_info("USDC-ETH").unwrap().reserve_a, dec(1000000, 0));
}

#[test]
fn quote_selects_reserves_by_input_token() {
    let mut amm = AutomatedMarketMaker::new();
    amm.create_pool("A".to_string(), "B".to_string(), dec(1800, 0), dec(1900, 0), dec(1, 2)).unwrap();
    let from_a = amm.quote("A-B", "A", dec(100, 0)).unwrap();
    assert_eq!(from_a.price_impact, dec(5, 2));
    assert_eq!(from_a.output_amount, dec(975, 1));
    assert_eq!(from_a.fee_amount, dec(1, 0));
    // 100 of B against reserves (1900, 1800): impact 100 / 2100
    let from_b = amm.quote("A-B", "B", dec(100, 0)).unwrap();
    assert_eq!(from_b.price_impact, div(dec(100, 0), dec(2100, 0)));
}

#[test]
fn swap_updates_reserves_by_input_and_net_output() {
    let mut amm = amm_with_pool();
    let quote = amm.quote("USDC-ETH", "USDC", dec(50000, 0)).unwrap();
    let swap = amm.swap("USDC-ETH", "USDC", dec(50000, 0), dec(23, 0)).unwrap();
    assert!(swap.price_impact.gt(&dec(1, 2)));
    assert_eq!(swap.price_impact, quote.price_impact);
    assert_eq!(swap.input_amount, dec(50000, 0));
    assert_eq!(swap.fee_amount, dec(150, 0));
    // the fee is in units of the input and is taken off the quoted output
    assert_eq!(swap.output_amount, sub(quote.output_amount, dec(150, 0)));
    let pool = amm.get_pool_info("USDC-ETH").unwrap();
    assert_eq!(pool.reserve_a, dec(1050000, 0));
    assert_eq!(pool.reserve_b, sub(dec(500, 0), swap.output_amount));
}

#[test]
fn swap_far_above_the_least_output_is_refused_and_changes_nothing() {
    let mut amm = amm_with_pool();
    let r = amm.swap("USDC-ETH", "USDC", dec(50000, 0), dec(1, 0));
    assert!(r.is_err(), "Swap should fail due to slippage protection");
    assert!(matches!(r.unwrap_err(), MarketMakerError::SlippageExceeded));
    let pool = amm.get_pool_info("USDC-ETH").unwrap();
    assert_eq!(pool.reserve_a, dec(1000000, 0));
    assert_eq!(pool.reserve_b, dec(500, 0));
}

#[test]
fn swap_below_the_least_output_passes_the_guard() {
    let mut amm = amm_with_pool();
    // about 0.499 ETH for 1000 USDC: against a least output of 1 the
    // slippage is negative
    let quote = amm.quote("USDC-ETH", "USDC", dec(1000, 0)).unwrap();
    assert!(quote.output_amount.lt(&dec(1, 0)));
    let swap = amm.swap("USDC-ETH", "USDC", dec(1000, 0), dec(1, 0)).unwrap();
    assert_eq!(swap.fee_amount, dec(3, 0));
    assert_eq!(amm.get_pool_info("USDC-ETH").unwrap().reserve_a, dec(1001000, 0));
}

#[test]
fn swap_with_too_high_an_impact_changes_nothing() {
    let mut amm = amm_with_pool();
    let r = amm.swap("USDC-ETH", "USDC", dec(5000000, 0), dec(0, 0));
    assert_eq!(r.unwrap_err(), MarketMakerError::PriceImpactTooHigh);
    assert_eq!(amm.get_pool_info("USDC-ETH").unwrap().reserve_a, dec(1000000, 0));
}

#[test]
fn market_maker_error_messages() {
    assert_eq!(MarketMakerError::InsufficientLiquidity.message(), "Insufficient liquidity");
    assert_eq!(MarketMakerError::PriceImpactTooHigh.message(), "Price impact too high");
    assert_eq!(MarketMakerError::SlippageExceeded.message(), "Slippage exceeded");
    assert_eq!(MarketMakerError::InvalidPoolParameters.message(), "Invalid pool parameters");
}

#[test]
fn an_impact_below_zero_is_refused() {
    let calculator = PriceImpactCalculator::new();
    // -1 / (10 - 2)
    assert_eq!(
        calculator.calculate_price_impact(dec(-1, 0), dec(10, 0), dec(1, 0)).unwrap_err(),
        MarketMakerError::PriceImpactTooHigh
    );
    assert_eq!(
        calculator.limit_impact(Some(dec(-1, 3))).unwrap_err(),
        MarketMakerError::PriceImpactTooHigh
    );
    assert_eq!(calculator.limit_impact(Some(dec(0, 0))).unwrap(), dec(0, 0));
}

#[test]
fn an_output_that_the_pool_cannot_give_is_refused() {
    // with a limit of 10 the impact of about 5.19 passes, and the output
    // after it, 90.9 * (1 - 2.59), is below zero
    let loose = PriceImpactCalculator::with_config(dec(10, 0), dec(1, 0));
    let r = loose.estimate_from_depth(dec(1000, 0), dec(100, 0), dec(100, 0), Some(dec(1, 0)));
    assert_eq!(r.unwrap_err(), MarketMakerError::InsufficientLiquidity);
    // nothing in, nothing out
    let calculator = PriceImpactCalculator::new();
    let (output, impact) = calculator
        .estimate_output_with_impact(dec(0, 0), dec(1800, 0), dec(1900, 0))
        .unwrap();
    assert_eq!(output, dec(0, 0));
    assert_eq!(impact, dec(0, 0));
}

#[test]
fn a_new_market_maker_limits_the_impact_at_a_quarter() {
    let mut amm = AutomatedMarketMaker::new();
    amm.create_pool("A".to_string(), "B".to_string(), dec(1000, 0), dec(1000, 0), dec(1, 2)).unwrap();
    // 500 is above a tenth of the reserve: 0.25 * (1 + 0.4 * 1.1) is above 0.25
    let amplified = amm.quote("A-B", "A", dec(500, 0));
    assert_eq!(amplified.unwrap_err(), MarketMakerError::PriceImpactTooHigh);
    let below = amm.quote("A-B", "A", dec(100, 0)).unwrap();
    assert_eq!(below.price_impact, div(dec(100, 0), dec(1200, 0)));
    assert!(below.output_amount.gt(&dec(0, 0)));
    assert!(below.output_amount.lt(&dec(1000, 0)));
}

#[test]
fn roots_have_at_most_eight_places() {
    let calculator = PriceImpactCalculator::new();
    assert_eq!(calculator.decimal_sqrt(dec(2, 0)).unwrap().scale, 8);
    assert!(calculator.decimal_sqrt(dec(3, 0)).unwrap().scale <= 8);
    assert!(calculator.decimal_sqrt(dec(123456789, 4)).unwrap().scale <= 8);
}
