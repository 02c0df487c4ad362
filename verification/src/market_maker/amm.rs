//! The market maker: a registry of pools by key, quotes, and swaps behind
//! the slippage guard.
//!
//! The key of a pool is the names of its two tokens with a hyphen between
//! them, as they were given when the pool was made.

use vstd::prelude::*;
use crate::decimal::Decimal;
use crate::market_maker::liquidity_pool::{
    deposit,
    deposited_exactly,
    grown,
    reserve_in,
    reserve_out,
    share_of,
    shrunk,
    swapped,
    LiquidityPool,
};
use crate::market_maker::price_impact::{depth_factor, PriceImpactCalculator};
use crate::market_maker::slippage::{slippage, SlippageProtection};
use crate::market_maker::types::{MarketMakerError, Pool, PoolPosition, SwapResult};
use crate::platform::hyphenated;
use crate::utils::lookup::{
    distinct,
    find_key,
    index_of,
    lemma_distinct_push,
    lemma_index_after_push,
    lemma_index_found,
};

verus! {

/// The key of a pool of the two tokens.
pub open spec fn pool_key(token_a: Seq<char>, token_b: Seq<char>) -> Seq<char> {
    token_a + seq!['-'] + token_b
}

/// A pool can be made with these reserves and this fee: they are amounts,
/// the reserves are not negative, and the fee is at least 0 and below 1.
pub open spec fn pool_parameters_valid(initial_a: Decimal, initial_b: Decimal, fee: Decimal) -> bool {
    &&& initial_a.wf()
    &&& initial_b.wf()
    &&& fee.wf()
    &&& initial_a@ >= 0
    &&& initial_b@ >= 0
    &&& 0 <= fee@ < crate::decimal::UNITS_PER_ONE
}

/// The quote for `input` of `input_token` against the pool: what the
/// calculator estimates for the two reserves, and the fee of the pool on
/// the input. A fee that cannot be formed makes the parameters invalid.
pub open spec fn quoted(
    calculator: PriceImpactCalculator,
    pool: Pool,
    input_token: Seq<char>,
    input: Decimal,
) -> Result<SwapResult, MarketMakerError> {
    let first = input_token == pool.token_a@;
    match calculator.estimate_at(
        input,
        reserve_in(pool, first),
        reserve_out(pool, first),
        depth_factor(reserve_in(pool, first), reserve_out(pool, first)),
    ) {
        Ok(estimate) => match input.product(pool.fee_percentage) {
            Some(fee) => Ok(
                SwapResult {
                    input_amount: input,
                    output_amount: estimate.0,
                    price_impact: estimate.1,
                    fee_amount: fee,
                },
            ),
            None => Err(MarketMakerError::InvalidPoolParameters),
        },
        Err(e) => Err(e),
    }
}

/// What a quote becomes where it is carried out: the guard judges the
/// quoted output against the least output; the fee is taken off the
/// quoted output; the pool takes the input and gives what is left. The
/// result holds that net output.
pub open spec fn carried_out(
    guard: SlippageProtection,
    pool: Pool,
    input_token: Seq<char>,
    quote: SwapResult,
    min_output: Decimal,
) -> Result<(SwapResult, Pool), MarketMakerError> {
    match guard.verdict(slippage(quote.output_amount, min_output)) {
        Err(e) => Err(e),
        Ok(_) => match quote.output_amount.difference(quote.fee_amount) {
            Some(net) => match swapped(pool, input_token == pool.token_a@, quote.input_amount, net) {
                Some(after) => Ok(
                    (
                        SwapResult {
                            input_amount: quote.input_amount,
                            output_amount: net,
                            price_impact: quote.price_impact,
                            fee_amount: quote.fee_amount,
                        },
                        after,
                    ),
                ),
                None => Err(MarketMakerError::InsufficientLiquidity),
            },
            None => Err(MarketMakerError::InsufficientLiquidity),
        },
    }
}

/// A swap: the quote, carried out.
pub open spec fn swap_of(
    calculator: PriceImpactCalculator,
    guard: SlippageProtection,
    pool: Pool,
    input_token: Seq<char>,
    input: Decimal,
    min_output: Decimal,
) -> Result<(SwapResult, Pool), MarketMakerError> {
    match quoted(calculator, pool, input_token, input) {
        Ok(quote) => carried_out(guard, pool, input_token, quote, min_output),
        Err(e) => Err(e),
    }
}

pub struct AutomatedMarketMaker {
    keys: Vec<String>,
    pools: Vec<LiquidityPool>,
    price_calculator: PriceImpactCalculator,
    slippage_protection: SlippageProtection,
}

impl AutomatedMarketMaker {
    /// Whether a pool stands under `key`.
    pub closed spec fn has_pool(&self, key: Seq<char>) -> bool {
        index_of(self.keys@, key, 0) < self.keys@.len()
    }

    /// The pool under `key`.
    pub closed spec fn pool(&self, key: Seq<char>) -> LiquidityPool {
        self.pools@[index_of(self.keys@, key, 0)]
    }

    /// The calculator that quotes.
    pub closed spec fn calculator(&self) -> PriceImpactCalculator {
        self.price_calculator
    }

    /// The guard that swaps pass.
    pub closed spec fn guard(&self) -> SlippageProtection {
        self.slippage_protection
    }

    /// Every pool is in order and stands under the key of its tokens, and
    /// no key stands for two pools.
    pub closed spec fn wf(&self) -> bool {
        &&& self.keys@.len() == self.pools@.len()
        &&& distinct(self.keys@)
        &&& self.price_calculator.wf()
        &&& self.slippage_protection.wf()
        &&& forall|i: int|
            0 <= i < self.pools@.len() ==> (#[trigger] self.pools@[i]).wf() && self.keys@[i]@
                == pool_key(self.pools@[i].info().token_a@, self.pools@[i].info().token_b@)
    }

    /// The other pools, and the calculator and the guard, are the same in
    /// the two.
    pub open spec fn same_but(&self, other: &AutomatedMarketMaker, key: Seq<char>) -> bool {
        &&& self.calculator() == other.calculator()
        &&& self.guard() == other.guard()
        &&& forall|k: Seq<char>|
            k != key ==> #[trigger] self.has_pool(k) == other.has_pool(k) && (self.has_pool(k)
                ==> self.pool(k) == other.pool(k))
    }

    /// The reserves of every pool are amounts that are not negative.
    pub proof fn lemma_reserves_not_negative(&self, key: Seq<char>)
        requires
            self.wf(),
            self.has_pool(key),
        ensures
            self.pool(key).wf(),
            self.pool(key).info().reserve_a@ >= 0,
            self.pool(key).info().reserve_b@ >= 0,
    {
        lemma_index_found(self.keys@, key, 0);
    }

    /// A market maker without pools, with the calculator of 0.25 and 1.1
    /// and a guard of 0.02.
    pub fn new() -> (amm: AutomatedMarketMaker)
        ensures
            amm.wf(),
            forall|k: Seq<char>| !amm.has_pool(k),
            amm.guard().limit() == crate::decimal::lit(2, 2),
            amm.calculator().max_impact() == crate::decimal::lit(25, 2),
            amm.calculator().impact_multiplier() == crate::decimal::lit(11, 1),
    {
        AutomatedMarketMaker {
            keys: Vec::new(),
            pools: Vec::new(),
            price_calculator: PriceImpactCalculator::new(),
            slippage_protection: SlippageProtection::new(Decimal::new(2, 2)),
        }
    }

    /// Where the pool under `key` stands.
    fn find_pool(&self, key: &str) -> (r: Option<usize>)
        requires
            self.wf(),
        ensures
            match r {
                Some(i) => self.has_pool(key@) && i == index_of(self.keys@, key@, 0) && i
                    < self.pools@.len(),
                None => !self.has_pool(key@),
            },
    {
        find_key(&self.keys, key)
    }

    /// Makes a pool of the two tokens with the given reserves and fee. It
    /// fails with `InvalidPoolParameters`, and changes nothing, where a
    /// pool stands under the key of the two tokens already, or the
    /// parameters are not valid.
    pub fn create_pool(
        &mut self,
        token_a: String,
        token_b: String,
        initial_a: Decimal,
        initial_b: Decimal,
        fee_percentage: Decimal,
    ) -> (r: Result<Pool, MarketMakerError>)
        requires
            old(self).wf(),
        ensures
            final(self).wf(),
            r is Ok <==> pool_parameters_valid(initial_a, initial_b, fee_percentage) && !old(self).has_pool(pool_key(token_a@, token_b@)),
            r matches Err(e) ==> e == MarketMakerError::InvalidPoolParameters && *final(self)
                == *old(self),
            r matches Ok(pool) ==> pool.token_a == token_a && pool.token_b == token_b
                && pool.reserve_a == initial_a && pool.reserve_b == initial_b
                && pool.fee_percentage == fee_percentage,
            r matches Ok(pool) ==> final(self).has_pool(pool_key(token_a@, token_b@)) && final(self).pool(pool_key(token_a@, token_b@)).info() == pool && final(self).pool(
                pool_key(token_a@, token_b@),
            ).positions() == Map::<u128, PoolPosition>::empty(),
            r is Ok ==> final(self).same_but(old(self), pool_key(token_a@, token_b@)),
    {
        let valid = initial_a.is_wf() && initial_b.is_wf() && fee_percentage.is_wf()
            && !initial_a.is_negative() && !initial_b.is_negative()
            && !fee_percentage.is_negative() && fee_percentage.lt(&Decimal::one());
        if !valid {
            return Err(MarketMakerError::InvalidPoolParameters);
        }
        let key = hyphenated(token_a.as_str(), token_b.as_str());
        if self.find_pool(key.as_str()).is_some() {
            return Err(MarketMakerError::InvalidPoolParameters);
        }
        let pool = LiquidityPool::new(token_a, token_b, initial_a, initial_b, fee_percentage);
        let info = pool.pool_info().duplicate();
        let ghost old_keys = self.keys@;
        let ghost old_pools = self.pools@;
        self.keys.push(key);
        self.pools.push(pool);
        proof {
            lemma_distinct_push(old_keys, key);
            lemma_index_after_push(old_keys, key, key@);
            assert forall|k: Seq<char>| k != key@ implies #[trigger] self.has_pool(k) == old(self).has_pool(k) && (self.has_pool(k) ==> self.pool(k) == old(self).pool(k)) by {
                lemma_index_after_push(old_keys, key, k);
                lemma_index_found(old_keys, k, 0);
                let at = index_of(old_keys, k, 0);
                if at < old_keys.len() {
                    assert(self.pools@[at] == old_pools[at]);
                }
            }
        }
        Ok(info)
    }

    /// Takes a deposit into the pool under `token_pair`, as the pool takes
    /// it. It fails with `InvalidPoolParameters` where no pool stands
    /// under the key, and where the pool refuses the deposit.
    pub fn add_liquidity(&mut self, token_pair: &str, provider_id: u128, amount_a: Decimal, amount_b: Decimal) -> (r:
        Result<PoolPosition, MarketMakerError>)
        requires
            old(self).wf(),
            amount_a.wf(),
            amount_b.wf(),
            amount_a@ >= 0,
            amount_b@ >= 0,
            amount_a@ > 0 || amount_b@ > 0,
        ensures
            final(self).wf(),
            final(self).same_but(old(self), token_pair@),
            final(self).has_pool(token_pair@) == old(self).has_pool(token_pair@),
            !old(self).has_pool(token_pair@) ==> r == Err::<PoolPosition, MarketMakerError>(
                MarketMakerError::InvalidPoolParameters,
            ),
            old(self).has_pool(token_pair@) ==> match deposit(
                old(self).pool(token_pair@).info(),
                provider_id,
                amount_a,
                amount_b,
            ) {
                Some(made) => r == Ok::<PoolPosition, MarketMakerError>(made.1) && final(self).pool(
                    token_pair@,
                ).info() == made.0 && final(self).pool(token_pair@).positions() == old(self).pool(
                    token_pair@,
                ).positions().insert(provider_id, made.1),
                None => r == Err::<PoolPosition, MarketMakerError>(
                    MarketMakerError::InvalidPoolParameters,
                ) && final(self).pool(token_pair@).info() == old(self).pool(token_pair@).info()
                    && final(self).pool(token_pair@).positions() == old(self).pool(
                    token_pair@,
                ).positions(),
            },
            r is Ok && old(self).pool(token_pair@).info().reserve_a.adds_exactly(amount_a) && old(self).pool(token_pair@).info().reserve_b.adds_exactly(amount_b) ==> deposited_exactly(
                old(self).pool(token_pair@).info(),
                final(self).pool(token_pair@).info(),
                amount_a,
                amount_b,
            ),
            old(self).has_pool(token_pair@) && old(self).pool(
                token_pair@,
            ).info().reserve_a.adds_exactly(amount_a) && old(self).pool(
                token_pair@,
            ).info().reserve_b.adds_exactly(amount_b) ==> (r is Ok <==> share_of(
                old(self).pool(token_pair@).info(),
                amount_a,
                amount_b,
            ) is Some),
            old(self).has_pool(token_pair@) && old(self).pool(token_pair@).info().reserve_a@ == 0
                && old(self).pool(token_pair@).info().reserve_b@ == 0 ==> share_of(
                old(self).pool(token_pair@).info(),
                amount_a,
                amount_b,
            ) == Some(crate::decimal::lit(1, 0)),
    {
        let i = match self.find_pool(token_pair) {
            Some(i) => i,
            None => {
                return Err(MarketMakerError::InvalidPoolParameters);
            },
        };
        let ghost before = self.pools@;
        let r = self.pools[i].add_liquidity(provider_id, amount_a, amount_b);
        proof {
            assert(self.pools@ =~= before.update(i as int, self.pools@[i as int]));
            lemma_deposit_keeps_tokens(before[i as int].info(), provider_id, amount_a, amount_b);
            lemma_index_found(self.keys@, token_pair@, 0);
            assert forall|k: Seq<char>| k != token_pair@ implies #[trigger] self.has_pool(k) == old(self).has_pool(k) && (self.has_pool(k) ==> self.pool(k) == old(self).pool(k)) by {
                lemma_index_found(self.keys@, k, 0);
            }
        }
        r
    }

    /// The quote for `input_amount` of `input_token` against the pool
    /// under `token_pair`. It fails with `InvalidPoolParameters` where no
    /// pool stands under the key, and as the estimate fails.
    pub fn quote(&self, token_pair: &str, input_token: &str, input_amount: Decimal) -> (r: Result<
        SwapResult,
        MarketMakerError,
    >)
        requires
            self.wf(),
            input_amount.wf(),
        ensures
            r == (if self.has_pool(token_pair@) {
                quoted(self.calculator(), self.pool(token_pair@).info(), input_token@, input_amount)
            } else {
                Err(MarketMakerError::InvalidPoolParameters)
            }),
            r matches Ok(q) ==> 0 <= q.price_impact@ <= self.calculator().max_impact()@,
            r matches Ok(q) ==> 0 <= q.output_amount@ < reserve_out(
                self.pool(token_pair@).info(),
                input_token@ == self.pool(token_pair@).info().token_a@,
            )@,
    {
        let i = match self.find_pool(token_pair) {
            Some(i) => i,
            None => {
                return Err(MarketMakerError::InvalidPoolParameters);
            },
        };
        quote_pool(&self.price_calculator, &self.pools[i], input_token, input_amount)
    }

    /// Swaps `input_amount` of `input_token` against the pool under
    /// `token_pair`: the quote is formed, the guard judges its output
    /// against `min_output`, and the pool takes the input and gives the
    /// quoted output less the fee. A swap that fails changes nothing.
    pub fn swap(&mut self, token_pair: &str, input_token: &str, input_amount: Decimal, min_output: Decimal) -> (r:
        Result<SwapResult, MarketMakerError>)
        requires
            old(self).wf(),
            input_amount.wf(),
            min_output.wf(),
        ensures
            final(self).wf(),
            final(self).same_but(old(self), token_pair@),
            final(self).has_pool(token_pair@) == old(self).has_pool(token_pair@),
            !old(self).has_pool(token_pair@) ==> r == Err::<SwapResult, MarketMakerError>(
                MarketMakerError::InvalidPoolParameters,
            ),
            old(self).has_pool(token_pair@) ==> match swap_of(
                old(self).calculator(),
                old(self).guard(),
                old(self).pool(token_pair@).info(),
                input_token@,
                input_amount,
                min_output,
            ) {
                Ok(done) => r == Ok::<SwapResult, MarketMakerError>(done.0) && final(self).pool(
                    token_pair@,
                ).info() == done.1,
                Err(e) => r == Err::<SwapResult, MarketMakerError>(e) && final(self).pool(
                    token_pair@,
                ).info() == old(self).pool(token_pair@).info(),
            },
            old(self).has_pool(token_pair@) ==> final(self).pool(token_pair@).positions() == old(self).pool(token_pair@).positions(),
            r matches Ok(done) ==> 0 <= done.price_impact@ <= old(self).calculator().max_impact()@,
            r matches Ok(done) ==> swap_moved_exactly(
                old(self).pool(token_pair@).info(),
                final(self).pool(token_pair@).info(),
                input_token@,
                done,
            ),
    {
        let i = match self.find_pool(token_pair) {
            Some(i) => i,
            None => {
                return Err(MarketMakerError::InvalidPoolParameters);
            },
        };
        let quote = match quote_pool(&self.price_calculator, &self.pools[i], input_token, input_amount) {
            Ok(quote) => quote,
            Err(e) => {
                return Err(e);
            },
        };
        let ghost before = self.pools@;
        let r = carry_out(&self.slippage_protection, &mut self.pools[i], input_token, quote, min_output);
        proof {
            assert(self.pools@ =~= before.update(i as int, self.pools@[i as int]));
            lemma_index_found(self.keys@, token_pair@, 0);
            assert forall|k: Seq<char>| k != token_pair@ implies #[trigger] self.has_pool(k) == old(self).has_pool(k) && (self.has_pool(k) ==> self.pool(k) == old(self).pool(k)) by {
                lemma_index_found(self.keys@, k, 0);
            }
        }
        r
    }

    /// The record of the pool under `token_pair`; `InvalidPoolParameters`
    /// where none stands there.
    pub fn get_pool_info(&self, token_pair: &str) -> (r: Result<Pool, MarketMakerError>)
        requires
            self.wf(),
        ensures
            r == (if self.has_pool(token_pair@) {
                Ok::<Pool, MarketMakerError>(self.pool(token_pair@).info())
            } else {
                Err(MarketMakerError::InvalidPoolParameters)
            }),
    {
        match self.find_pool(token_pair) {
            Some(i) => Ok(self.pools[i].pool_info().duplicate()),
            None => Err(MarketMakerError::InvalidPoolParameters),
        }
    }
}

/// The swap moved the reserves by the input and by the net output that
/// the result holds, without rounding, wherever the sum and the difference
/// are formed without rounding.
pub open spec fn swap_moved_exactly(before: Pool, after: Pool, input_token: Seq<char>, done: SwapResult) -> bool {
    let first = input_token == before.token_a@;
    &&& reserve_in(before, first).adds_exactly(done.input_amount) ==> grown(
        reserve_in(before, first),
        done.input_amount,
        reserve_in(after, first),
    )
    &&& reserve_out(before, first).subtracts_exactly(done.output_amount) ==> shrunk(
        reserve_out(before, first),
        done.output_amount,
        reserve_out(after, first),
    )
}

/// A deposit leaves the names of the tokens as they are.
pub proof fn lemma_deposit_keeps_tokens(pool: Pool, provider_id: u128, amount_a: Decimal, amount_b: Decimal)
    ensures
        deposit(pool, provider_id, amount_a, amount_b) matches Some(made) ==> made.0.token_a
            == pool.token_a && made.0.token_b == pool.token_b,
{
}

/// The quote for `input_amount` of `input_token` against the pool.
pub fn quote_pool(
    calculator: &PriceImpactCalculator,
    pool: &LiquidityPool,
    input_token: &str,
    input_amount: Decimal,
) -> (r: Result<SwapResult, MarketMakerError>)
    requires
        calculator.wf(),
        pool.wf(),
        input_amount.wf(),
    ensures
        r == quoted(*calculator, pool.info(), input_token@, input_amount),
        r matches Ok(q) ==> q.input_amount == input_amount && q.output_amount.wf()
            && q.price_impact.wf() && q.fee_amount.wf() && 0 <= q.price_impact@
            <= calculator.max_impact()@,
        r matches Ok(q) ==> 0 <= q.output_amount@ < reserve_out(
            pool.info(),
            input_token@ == pool.info().token_a@,
        )@,
{
    let (input_reserve, output_reserve) = if pool.is_token_a(input_token) {
        (pool.reserve_a(), pool.reserve_b())
    } else {
        (pool.reserve_b(), pool.reserve_a())
    };
    let (output_amount, price_impact) = match calculator.estimate_output_with_impact(
        input_amount,
        input_reserve,
        output_reserve,
    ) {
        Ok(estimate) => estimate,
        Err(e) => {
            return Err(e);
        },
    };
    match pool.calculate_fee(input_amount) {
        Some(fee_amount) => Ok(SwapResult { input_amount, output_amount, price_impact, fee_amount }),
        None => Err(MarketMakerError::InvalidPoolParameters),
    }
}

/// Carries a quote out against the pool: the guard first, then the fee,
/// then the reserves. Where it fails, the pool is as it was.
pub fn carry_out(
    guard: &SlippageProtection,
    pool: &mut LiquidityPool,
    input_token: &str,
    quote: SwapResult,
    min_output: Decimal,
) -> (r: Result<SwapResult, MarketMakerError>)
    requires
        guard.wf(),
        old(pool).wf(),
        quote.input_amount.wf(),
        quote.output_amount.wf(),
        quote.fee_amount.wf(),
        min_output.wf(),
    ensures
        final(pool).wf(),
        final(pool).positions() == old(pool).positions(),
        match carried_out(*guard, old(pool).info(), input_token@, quote, min_output) {
            Ok(done) => r == Ok::<SwapResult, MarketMakerError>(done.0) && final(pool).info()
                == done.1,
            Err(e) => r == Err::<SwapResult, MarketMakerError>(e) && final(pool).info() == old(pool).info(),
        },
        r matches Ok(done) ==> done.price_impact == quote.price_impact && swap_moved_exactly(
            old(pool).info(),
            final(pool).info(),
            input_token@,
            done,
        ),
{
    match guard.check_slippage(quote.output_amount, min_output) {
        Ok(_) => {},
        Err(e) => {
            return Err(e);
        },
    }
    let net_output = match quote.output_amount.minus(quote.fee_amount) {
        Some(net) => net,
        None => {
            return Err(MarketMakerError::InsufficientLiquidity);
        },
    };
    match pool.execute_swap(input_token, quote.input_amount, net_output) {
        Ok(_) => Ok(
            SwapResult {
                input_amount: quote.input_amount,
                output_amount: net_output,
                price_impact: quote.price_impact,
                fee_amount: quote.fee_amount,
            },
        ),
        Err(e) => Err(e),
    }
}

} // verus!
