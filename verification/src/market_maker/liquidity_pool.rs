//! One pool: its reserves and what each provider has put in.
//!
//! Reserves change by decimal sums and differences as `rust_decimal` forms
//! them. An operation that would leave a reserve negative, or whose sums
//! cannot be formed, fails and leaves the pool as it was.

use vstd::prelude::*;
use std::collections::HashMap;
use crate::decimal::{div_opt, lit, opt_quotient, Decimal};
use crate::market_maker::types::{MarketMakerError, Pool, PoolPosition};
use crate::platform::random_id;

verus! {

broadcast use vstd::std_specs::hash::group_hash_axioms;

/// The share of a deposit: 1 into an empty pool, else the deposit over the
/// reserves, both tokens added up.
pub open spec fn share_of(pool: Pool, amount_a: Decimal, amount_b: Decimal) -> Option<Decimal> {
    match pool.reserve_a.sum(pool.reserve_b) {
        Some(total) => if total.mantissa == 0 {
            Some(lit(1, 0))
        } else {
            opt_quotient(amount_a.sum(amount_b), Some(total))
        },
        None => None,
    }
}

/// The pool with other reserves.
pub open spec fn with_reserves(pool: Pool, reserve_a: Decimal, reserve_b: Decimal) -> Pool {
    Pool { reserve_a, reserve_b, ..pool }
}

/// The pool and the position after a deposit; nothing where the share or
/// a new reserve cannot be formed or a new reserve is negative.
pub open spec fn deposit(pool: Pool, provider_id: u128, amount_a: Decimal, amount_b: Decimal) -> Option<
    (Pool, PoolPosition),
> {
    match (share_of(pool, amount_a, amount_b), pool.reserve_a.sum(amount_a), pool.reserve_b.sum(amount_b)) {
        (Some(share), Some(a), Some(b)) => if a@ >= 0 && b@ >= 0 {
            Some(
                (
                    with_reserves(pool, a, b),
                    PoolPosition {
                        pool_id: pool.id,
                        provider_id,
                        token_a_amount: amount_a,
                        token_b_amount: amount_b,
                        share_percentage: share,
                    },
                ),
            )
        } else {
            None
        },
        _ => None,
    }
}

/// The pool after a position is taken out; nothing where a new reserve
/// cannot be formed or is negative.
pub open spec fn withdrawal(pool: Pool, position: PoolPosition) -> Option<Pool> {
    match (
        pool.reserve_a.difference(position.token_a_amount),
        pool.reserve_b.difference(position.token_b_amount),
    ) {
        (Some(a), Some(b)) => if a@ >= 0 && b@ >= 0 {
            Some(with_reserves(pool, a, b))
        } else {
            None
        },
        _ => None,
    }
}

/// The reserve that a swap pays into.
pub open spec fn reserve_in(pool: Pool, input_is_a: bool) -> Decimal {
    if input_is_a {
        pool.reserve_a
    } else {
        pool.reserve_b
    }
}

/// The reserve that a swap pays out of.
pub open spec fn reserve_out(pool: Pool, input_is_a: bool) -> Decimal {
    if input_is_a {
        pool.reserve_b
    } else {
        pool.reserve_a
    }
}

/// The pool after a swap: the input is added to its reserve, the output
/// taken from the other; nothing where a new reserve cannot be formed or
/// is negative.
pub open spec fn swapped(pool: Pool, input_is_a: bool, input: Decimal, output: Decimal) -> Option<
    Pool,
> {
    match (reserve_in(pool, input_is_a).sum(input), reserve_out(pool, input_is_a).difference(output)) {
        (Some(x), Some(y)) => if x@ >= 0 && y@ >= 0 {
            Some(
                if input_is_a {
                    with_reserves(pool, x, y)
                } else {
                    with_reserves(pool, y, x)
                },
            )
        } else {
            None
        },
        _ => None,
    }
}

/// Reserve and amount add without rounding to a reserve that is not
/// negative.
pub open spec fn grows_exactly(reserve: Decimal, amount: Decimal) -> bool {
    reserve.adds_exactly(amount) && reserve@ + amount@ >= 0
}

/// The amount is taken from the reserve without rounding, and the reserve
/// holds it.
pub open spec fn shrinks_exactly(reserve: Decimal, amount: Decimal) -> bool {
    reserve.subtracts_exactly(amount) && reserve@ - amount@ >= 0
}

/// `after` is the reserve and the amount added up, with no more decimal
/// places than the two have.
pub open spec fn grown(reserve: Decimal, amount: Decimal, after: Decimal) -> bool {
    after@ == reserve@ + amount@ && after.scale <= reserve.wider_scale(amount)
}

/// `after` is the reserve less the amount, with no more decimal places
/// than the two have.
pub open spec fn shrunk(reserve: Decimal, amount: Decimal, after: Decimal) -> bool {
    after@ == reserve@ - amount@ && after.scale <= reserve.wider_scale(amount)
}

/// The deposit changed the reserves by the amounts, without rounding.
pub open spec fn deposited_exactly(before: Pool, after: Pool, amount_a: Decimal, amount_b: Decimal) -> bool {
    &&& grown(before.reserve_a, amount_a, after.reserve_a)
    &&& grown(before.reserve_b, amount_b, after.reserve_b)
}

/// The withdrawal changed the reserves by the position, without rounding.
pub open spec fn withdrawn_exactly(before: Pool, after: Pool, position: PoolPosition) -> bool {
    &&& shrunk(before.reserve_a, position.token_a_amount, after.reserve_a)
    &&& shrunk(before.reserve_b, position.token_b_amount, after.reserve_b)
}

/// A deposit without rounding, followed by the withdrawal of the position
/// that it made without rounding, leaves the reserves as they were.
pub proof fn lemma_deposit_then_withdraw(before: Pool, between: Pool, after: Pool, position: PoolPosition)
    requires
        deposited_exactly(before, between, position.token_a_amount, position.token_b_amount),
        withdrawn_exactly(between, after, position),
    ensures
        after.reserve_a@ == before.reserve_a@,
        after.reserve_b@ == before.reserve_b@,
{
}

pub struct LiquidityPool {
    pool: Pool,
    positions: HashMap<u128, PoolPosition>,
}

impl LiquidityPool {
    /// The record of the pool.
    pub closed spec fn info(&self) -> Pool {
        self.pool
    }

    /// What each provider has put in.
    pub closed spec fn positions(&self) -> Map<u128, PoolPosition> {
        self.positions@
    }

    /// The record is in order, and every position holds amounts.
    pub open spec fn wf(&self) -> bool {
        &&& self.info().wf()
        &&& forall|id: u128| #[trigger]
            self.positions().contains_key(id) ==> self.positions()[id].token_a_amount.wf()
                && self.positions()[id].token_b_amount.wf()
    }

    /// A pool with the given reserves, no positions and a fresh
    /// identifier.
    pub fn new(
        token_a: String,
        token_b: String,
        reserve_a: Decimal,
        reserve_b: Decimal,
        fee_percentage: Decimal,
    ) -> (pool: LiquidityPool)
        requires
            reserve_a.wf(),
            reserve_b.wf(),
            fee_percentage.wf(),
            reserve_a@ >= 0,
            reserve_b@ >= 0,
        ensures
            pool.wf(),
            pool.info().token_a == token_a,
            pool.info().token_b == token_b,
            pool.info().reserve_a == reserve_a,
            pool.info().reserve_b == reserve_b,
            pool.info().fee_percentage == fee_percentage,
            pool.positions() == Map::<u128, PoolPosition>::empty(),
    {
        LiquidityPool {
            pool: Pool { id: random_id(), token_a, token_b, reserve_a, reserve_b, fee_percentage },
            positions: HashMap::new(),
        }
    }

    pub fn pool_info(&self) -> (p: &Pool)
        ensures
            *p == self.info(),
    {
        &self.pool
    }

    pub fn token_a(&self) -> (t: &str)
        ensures
            t@ == self.info().token_a@,
    {
        self.pool.token_a.as_str()
    }

    pub fn token_b(&self) -> (t: &str)
        ensures
            t@ == self.info().token_b@,
    {
        self.pool.token_b.as_str()
    }

    pub fn reserve_a(&self) -> (r: Decimal)
        ensures
            r == self.info().reserve_a,
    {
        self.pool.reserve_a
    }

    pub fn reserve_b(&self) -> (r: Decimal)
        ensures
            r == self.info().reserve_b,
    {
        self.pool.reserve_b
    }

    pub fn fee_percentage(&self) -> (f: Decimal)
        ensures
            f == self.info().fee_percentage,
    {
        self.pool.fee_percentage
    }

    /// Whether the provider has a position.
    pub fn has_position(&self, provider_id: u128) -> (b: bool)
        ensures
            b == self.positions().contains_key(provider_id),
    {
        self.positions.contains_key(&provider_id)
    }

    /// Whether `token` is the first token of the pool.
    pub fn is_token_a(&self, token: &str) -> (b: bool)
        ensures
            b == (token@ == self.info().token_a@),
    {
        token.to_owned() == self.pool.token_a
    }

    /// Takes a deposit: the reserves grow by the amounts, and the position
    /// is recorded under the provider in place of one that was there. It
    /// fails with `InvalidPoolParameters`, and changes nothing, where the
    /// share or a new reserve cannot be formed.
    pub fn add_liquidity(&mut self, provider_id: u128, token_a_amount: Decimal, token_b_amount: Decimal) -> (r:
        Result<PoolPosition, MarketMakerError>)
        requires
            old(self).wf(),
            token_a_amount.wf(),
            token_b_amount.wf(),
            token_a_amount@ >= 0,
            token_b_amount@ >= 0,
            token_a_amount@ > 0 || token_b_amount@ > 0,
        ensures
            final(self).wf(),
            match deposit(old(self).info(), provider_id, token_a_amount, token_b_amount) {
                Some(made) => r == Ok::<PoolPosition, MarketMakerError>(made.1) && final(self).info()
                    == made.0 && final(self).positions() == old(self).positions().insert(
                    provider_id,
                    made.1,
                ),
                None => r == Err::<PoolPosition, MarketMakerError>(
                    MarketMakerError::InvalidPoolParameters,
                ) && final(self).info() == old(self).info() && final(self).positions() == old(self).positions(),
            },
            r is Ok && old(self).info().reserve_a.adds_exactly(token_a_amount) && old(self).info().reserve_b.adds_exactly(token_b_amount) ==> deposited_exactly(
                old(self).info(),
                final(self).info(),
                token_a_amount,
                token_b_amount,
            ),
            old(self).info().reserve_a.adds_exactly(token_a_amount) && old(self).info().reserve_b.adds_exactly(token_b_amount) ==> (r is Ok <==> share_of(
                old(self).info(),
                token_a_amount,
                token_b_amount,
            ) is Some),
            old(self).info().reserve_a@ == 0 && old(self).info().reserve_b@ == 0 ==> share_of(
                old(self).info(),
                token_a_amount,
                token_b_amount,
            ) == Some(lit(1, 0)),
    {
        proof {
            crate::decimal::lemma_sign(self.pool.reserve_a);
            crate::decimal::lemma_sign(self.pool.reserve_b);
            if self.pool.reserve_a@ == 0 && self.pool.reserve_b@ == 0 {
                let s = self.pool.reserve_a.wider_scale(self.pool.reserve_b);
                assert(self.pool.reserve_a.mantissa_at(s) == 0 * crate::decimal::pow10(
                    (s - self.pool.reserve_a.scale) as nat,
                ));
                assert(self.pool.reserve_b.mantissa_at(s) == 0 * crate::decimal::pow10(
                    (s - self.pool.reserve_b.scale) as nat,
                ));
                assert(self.pool.reserve_a.adds_exactly(self.pool.reserve_b));
            }
        }
        let total = match self.pool.reserve_a.plus(self.pool.reserve_b) {
            Some(total) => total,
            None => {
                return Err(MarketMakerError::InvalidPoolParameters);
            },
        };
        proof {
            crate::decimal::lemma_sign(total);
        }
        let share = if total.is_zero() {
            Some(Decimal::one())
        } else {
            div_opt(token_a_amount.plus(token_b_amount), Some(total))
        };
        let share_percentage = match share {
            Some(share) => share,
            None => {
                return Err(MarketMakerError::InvalidPoolParameters);
            },
        };
        let (a, b) = match (
            self.pool.reserve_a.plus(token_a_amount),
            self.pool.reserve_b.plus(token_b_amount),
        ) {
            (Some(a), Some(b)) => (a, b),
            _ => {
                return Err(MarketMakerError::InvalidPoolParameters);
            },
        };
        if a.is_negative() || b.is_negative() {
            return Err(MarketMakerError::InvalidPoolParameters);
        }
        let position = PoolPosition {
            pool_id: self.pool.id,
            provider_id,
            token_a_amount,
            token_b_amount,
            share_percentage,
        };
        self.pool.reserve_a = a;
        self.pool.reserve_b = b;
        let _ = self.positions.insert(provider_id, position);
        proof {
            assert forall|id: u128| #[trigger] self.positions().contains_key(id) implies self.positions()[id].token_a_amount.wf()
                && self.positions()[id].token_b_amount.wf() by {
                if id != provider_id {
                    assert(old(self).positions().contains_key(id));
                }
            }
        }
        Ok(position)
    }

    /// Takes the provider's position out: the reserves shrink by what was
    /// put in. It fails with `InsufficientLiquidity`, and changes nothing,
    /// where the provider has no position or a reserve does not hold what
    /// was put in.
    pub fn remove_liquidity(&mut self, provider_id: u128) -> (r: Result<PoolPosition, MarketMakerError>)
        requires
            old(self).wf(),
        ensures
            final(self).wf(),
            match (if old(self).positions().contains_key(provider_id) {
                withdrawal(old(self).info(), old(self).positions()[provider_id])
            } else {
                None
            }) {
                Some(pool) => r == Ok::<PoolPosition, MarketMakerError>(
                    old(self).positions()[provider_id],
                ) && final(self).info() == pool && final(self).positions() == old(self).positions().remove(provider_id),
                None => r == Err::<PoolPosition, MarketMakerError>(
                    MarketMakerError::InsufficientLiquidity,
                ) && final(self).info() == old(self).info() && final(self).positions() == old(self).positions(),
            },
            r matches Ok(position) ==> (old(self).info().reserve_a.subtracts_exactly(
                position.token_a_amount,
            ) && old(self).info().reserve_b.subtracts_exactly(position.token_b_amount)
                ==> withdrawn_exactly(old(self).info(), final(self).info(), position)),
            old(self).positions().contains_key(provider_id) && shrinks_exactly(
                old(self).info().reserve_a,
                old(self).positions()[provider_id].token_a_amount,
            ) && shrinks_exactly(
                old(self).info().reserve_b,
                old(self).positions()[provider_id].token_b_amount,
            ) ==> r is Ok,
    {
        let position = match self.positions.get(&provider_id) {
            Some(position) => *position,
            None => {
                return Err(MarketMakerError::InsufficientLiquidity);
            },
        };
        let (a, b) = match (
            self.pool.reserve_a.minus(position.token_a_amount),
            self.pool.reserve_b.minus(position.token_b_amount),
        ) {
            (Some(a), Some(b)) => (a, b),
            _ => {
                return Err(MarketMakerError::InsufficientLiquidity);
            },
        };
        if a.is_negative() || b.is_negative() {
            return Err(MarketMakerError::InsufficientLiquidity);
        }
        self.pool.reserve_a = a;
        self.pool.reserve_b = b;
        let _ = self.positions.remove(&provider_id);
        Ok(position)
    }

    /// Makes a swap: the input is added to the reserve of `input_token`
    /// (the first token where the name is that of the first, else the
    /// second), the output taken from the other. It fails with
    /// `InsufficientLiquidity`, and changes nothing, where a new reserve
    /// cannot be formed or would be negative. It succeeds wherever the
    /// input adds and the output subtracts without rounding and leaves no
    /// reserve negative.
    pub fn execute_swap(&mut self, input_token: &str, input_amount: Decimal, output_amount: Decimal) -> (r:
        Result<(), MarketMakerError>)
        requires
            old(self).wf(),
            input_amount.wf(),
            output_amount.wf(),
        ensures
            final(self).wf(),
            final(self).positions() == old(self).positions(),
            match swapped(
                old(self).info(),
                input_token@ == old(self).info().token_a@,
                input_amount,
                output_amount,
            ) {
                Some(pool) => r == Ok::<(), MarketMakerError>(()) && final(self).info() == pool,
                None => r == Err::<(), MarketMakerError>(MarketMakerError::InsufficientLiquidity)
                    && final(self).info() == old(self).info(),
            },
            r is Ok && reserve_in(
                old(self).info(),
                input_token@ == old(self).info().token_a@,
            ).adds_exactly(input_amount) ==> grown(
                reserve_in(old(self).info(), input_token@ == old(self).info().token_a@),
                input_amount,
                reserve_in(final(self).info(), input_token@ == old(self).info().token_a@),
            ),
            r is Ok && reserve_out(
                old(self).info(),
                input_token@ == old(self).info().token_a@,
            ).subtracts_exactly(output_amount) ==> shrunk(
                reserve_out(old(self).info(), input_token@ == old(self).info().token_a@),
                output_amount,
                reserve_out(final(self).info(), input_token@ == old(self).info().token_a@),
            ),
            grows_exactly(
                reserve_in(old(self).info(), input_token@ == old(self).info().token_a@),
                input_amount,
            ) && shrinks_exactly(
                reserve_out(old(self).info(), input_token@ == old(self).info().token_a@),
                output_amount,
            ) ==> r is Ok,
    {
        let input_is_a = self.is_token_a(input_token);
        let (into, out_of) = if input_is_a {
            (self.pool.reserve_a, self.pool.reserve_b)
        } else {
            (self.pool.reserve_b, self.pool.reserve_a)
        };
        let (x, y) = match (into.plus(input_amount), out_of.minus(output_amount)) {
            (Some(x), Some(y)) => (x, y),
            _ => {
                return Err(MarketMakerError::InsufficientLiquidity);
            },
        };
        if x.is_negative() || y.is_negative() {
            return Err(MarketMakerError::InsufficientLiquidity);
        }
        if input_is_a {
            self.pool.reserve_a = x;
            self.pool.reserve_b = y;
        } else {
            self.pool.reserve_b = x;
            self.pool.reserve_a = y;
        }
        proof {
            assert forall|id: u128| #[trigger] self.positions().contains_key(id) implies self.positions()[id].token_a_amount.wf()
                && self.positions()[id].token_b_amount.wf() by {
                assert(old(self).positions().contains_key(id));
            }
        }
        Ok(())
    }

    /// The fee on `amount`: the amount times the fee of the pool; nothing
    /// where the product cannot be formed.
    pub fn calculate_fee(&self, amount: Decimal) -> (fee: Option<Decimal>)
        requires
            self.wf(),
            amount.wf(),
        ensures
            fee == amount.product(self.info().fee_percentage),
            fee matches Some(f) ==> f.wf(),
    {
        amount.times(self.pool.fee_percentage)
    }
}

} // verus!
