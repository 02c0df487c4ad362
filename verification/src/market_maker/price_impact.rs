//! The price impact of a swap, and what a swap gives after it.
//!
//! The formulas are made of decimal sums, differences, products and
//! quotients as `rust_decimal` forms them. Where one of them cannot be
//! formed (an overflow), the impact cannot be bounded, and the calculator
//! refuses the swap as it refuses an impact above its limit.

use vstd::prelude::*;
use crate::decimal::{
    add_opt,
    div_opt,
    lit,
    mul_opt,
    opt_difference,
    opt_product,
    opt_quotient,
    opt_sum,
    opt_wf,
    sub_opt,
    Decimal,
};
use crate::market_maker::types::MarketMakerError;

verus! {

/// How many rounds the square root makes at most.
pub const SQRT_ROUNDS: u32 = 20;

/// How many decimal places the square root has.
pub const SQRT_PLACES: u32 = 8;

/// One round of the square root of `value` from the guess `x`:
/// `(x + value / x) / 2`.
pub open spec fn newton_step(value: Decimal, x: Decimal) -> Option<Decimal> {
    opt_quotient(opt_sum(Some(x), value.quotient(x)), Some(lit(2, 0)))
}

/// The guess is settled: it moved by less than `10^-10`.
pub open spec fn settled(next: Decimal, x: Decimal) -> Option<bool> {
    match next.difference(x) {
        Some(step) => Some(
            (if step@ < 0 {
                -step@
            } else {
                step@
            }) < lit(1, 10)@,
        ),
        None => None,
    }
}

/// The guess after at most `rounds` rounds from `x`, stopping at the first
/// that settles.
pub open spec fn newton(value: Decimal, x: Decimal, rounds: nat) -> Option<Decimal>
    decreases rounds,
{
    if rounds == 0 {
        Some(x)
    } else {
        match newton_step(value, x) {
            Some(next) => match settled(next, x) {
                Some(true) => Some(next),
                Some(false) => newton(value, next, (rounds - 1) as nat),
                None => None,
            },
            None => None,
        }
    }
}

/// The square root: 0 for 0; else the guess after at most 20 rounds from
/// `value / 2`, rounded to 8 decimal places.
pub open spec fn sqrt(value: Decimal) -> Option<Decimal> {
    if value.mantissa == 0 {
        Some(lit(0, 0))
    } else {
        match value.quotient(lit(2, 0)) {
            Some(start) => match newton(value, start, SQRT_ROUNDS as nat) {
                Some(x) => Some(x.rounded(SQRT_PLACES)),
                None => None,
            },
            None => None,
        }
    }
}

/// `input / (reserve + 2 * input)`.
pub open spec fn base_impact(input: Decimal, reserve: Decimal) -> Option<Decimal> {
    opt_quotient(Some(input), opt_sum(Some(reserve), input.product(lit(2, 0))))
}

/// Whether the input is above a tenth of the reserve.
pub open spec fn above_tenth(input: Decimal, reserve: Decimal) -> Option<bool> {
    match reserve.product(lit(1, 1)) {
        Some(tenth) => Some(input@ > tenth@),
        None => None,
    }
}

/// `reserve_out - (reserve_in * reserve_out) / (reserve_in + input)`: what
/// the constant product gives for the input.
pub open spec fn ideal_output(input: Decimal, reserve_in: Decimal, reserve_out: Decimal) -> Option<
    Decimal,
> {
    opt_difference(
        Some(reserve_out),
        opt_quotient(reserve_in.product(reserve_out), reserve_in.sum(input)),
    )
}

/// `ideal * (1 - impact * 0.5)`.
pub open spec fn reduced_output(ideal: Option<Decimal>, impact: Decimal) -> Option<Decimal> {
    opt_product(ideal, opt_difference(Some(lit(1, 0)), impact.product(lit(5, 1))))
}

/// The output is one that the pool can give: it is not negative, no more
/// than what the constant product gives, which is less than the reserve,
/// and above zero for an input above zero.
pub open spec fn output_in_bounds(
    input: Decimal,
    ideal: Decimal,
    output: Decimal,
    reserve_out: Decimal,
) -> bool {
    &&& 0 <= output@ <= ideal@ < reserve_out@
    &&& input@ > 0 ==> output@ > 0
}

/// The depth of a pool: the square root of the larger reserve over the
/// smaller.
pub open spec fn depth_factor(reserve_in: Decimal, reserve_out: Decimal) -> Option<Decimal> {
    let ratio = if reserve_in@ > reserve_out@ {
        reserve_in.quotient(reserve_out)
    } else {
        reserve_out.quotient(reserve_in)
    };
    match ratio {
        Some(q) => sqrt(q),
        None => None,
    }
}

pub struct PriceImpactCalculator {
    max_impact: Decimal,
    impact_multiplier: Decimal,
}

impl PriceImpactCalculator {
    /// The greatest impact that passes.
    pub closed spec fn max_impact(&self) -> Decimal {
        self.max_impact
    }

    /// How strongly an input above a tenth of the reserve weighs.
    pub closed spec fn impact_multiplier(&self) -> Decimal {
        self.impact_multiplier
    }

    /// Both parameters are amounts.
    pub open spec fn wf(&self) -> bool {
        self.max_impact().wf() && self.impact_multiplier().wf()
    }

    /// The impact before it is held against the limit: the base impact,
    /// which for an input above a tenth of the reserve is multiplied by
    /// `1 + (input / reserve - 0.1) * multiplier * depth`.
    pub open spec fn adjusted_impact(
        &self,
        input: Decimal,
        reserve: Decimal,
        depth: Decimal,
    ) -> Option<Decimal> {
        match above_tenth(input, reserve) {
            Some(true) => opt_product(
                base_impact(input, reserve),
                opt_sum(
                    Some(lit(1, 0)),
                    opt_product(
                        opt_product(
                            opt_difference(input.quotient(reserve), Some(lit(1, 1))),
                            Some(self.impact_multiplier()),
                        ),
                        Some(depth),
                    ),
                ),
            ),
            Some(false) => base_impact(input, reserve),
            None => None,
        }
    }

    /// The impact held against the limit: an impact above it, one below
    /// zero, or one that could not be formed, is refused.
    pub open spec fn limited(&self, impact: Option<Decimal>) -> Result<Decimal, MarketMakerError> {
        match impact {
            Some(i) => if i@ > self.max_impact()@ || i@ < 0 {
                Err(MarketMakerError::PriceImpactTooHigh)
            } else {
                Ok(i)
            },
            None => Err(MarketMakerError::PriceImpactTooHigh),
        }
    }

    /// The price impact: no liquidity where the reserve is zero, else the
    /// adjusted impact held against the limit.
    pub open spec fn price_impact(&self, input: Decimal, reserve: Decimal, depth: Decimal) -> Result<
        Decimal,
        MarketMakerError,
    > {
        if reserve.mantissa == 0 {
            Err(MarketMakerError::InsufficientLiquidity)
        } else {
            self.limited(self.adjusted_impact(input, reserve, depth))
        }
    }

    /// What an input gives after the impact, and the impact, from the
    /// depth of the pool as it was found. An output that the pool cannot
    /// give is refused for want of liquidity.
    pub open spec fn estimate_at(
        &self,
        input: Decimal,
        reserve_in: Decimal,
        reserve_out: Decimal,
        depth: Option<Decimal>,
    ) -> Result<(Decimal, Decimal), MarketMakerError> {
        if reserve_in.mantissa == 0 || reserve_out.mantissa == 0 {
            Err(MarketMakerError::InsufficientLiquidity)
        } else {
            match depth {
                Some(d) => match self.price_impact(input, reserve_in, d) {
                    Ok(impact) => match (
                        ideal_output(input, reserve_in, reserve_out),
                        reduced_output(ideal_output(input, reserve_in, reserve_out), impact),
                    ) {
                        (Some(ideal), Some(output)) => if output_in_bounds(
                            input,
                            ideal,
                            output,
                            reserve_out,
                        ) {
                            Ok((output, impact))
                        } else {
                            Err(MarketMakerError::InsufficientLiquidity)
                        },
                        _ => Err(MarketMakerError::PriceImpactTooHigh),
                    },
                    Err(e) => Err(e),
                },
                None => Err(MarketMakerError::PriceImpactTooHigh),
            }
        }
    }

    /// The calculator with a limit of 0.25 and a multiplier of 1.1.
    pub fn new() -> (c: PriceImpactCalculator)
        ensures
            c.wf(),
            c.max_impact() == lit(25, 2),
            c.impact_multiplier() == lit(11, 1),
    {
        PriceImpactCalculator {
            max_impact: Decimal::new(25, 2),
            impact_multiplier: Decimal::new(11, 1),
        }
    }

    pub fn with_config(max_impact: Decimal, impact_multiplier: Decimal) -> (c:
        PriceImpactCalculator)
        ensures
            c.max_impact() == max_impact,
            c.impact_multiplier() == impact_multiplier,
    {
        PriceImpactCalculator { max_impact, impact_multiplier }
    }

    /// The square root of `value` by Newton's rounds; nothing where a sum
    /// or a quotient on the way cannot be formed. A root has at most 8
    /// decimal places.
    pub fn decimal_sqrt(&self, value: Decimal) -> (r: Option<Decimal>)
        requires
            value.wf(),
        ensures
            r == sqrt(value),
            opt_wf(r),
            r matches Some(root) ==> root.scale <= SQRT_PLACES,
    {
        if value.is_zero() {
            return Some(Decimal::zero());
        }
        let two = Decimal::new(2, 0);
        let tolerance = Decimal::new(1, 10);
        let mut x = match value.over(two) {
            Some(start) => start,
            None => {
                return None;
            },
        };
        let ghost start = x;
        let mut round: u32 = 0;
        while round < SQRT_ROUNDS
            invariant
                round <= SQRT_ROUNDS,
                value.wf(),
                value.mantissa != 0,
                value.quotient(lit(2, 0)) == Some(start),
                x.wf(),
                two == lit(2, 0),
                tolerance == lit(1, 10),
                newton(value, start, SQRT_ROUNDS as nat) == newton(
                    value,
                    x,
                    (SQRT_ROUNDS - round) as nat,
                ),
            decreases SQRT_ROUNDS - round,
        {
            let next = match div_opt(add_opt(Some(x), value.over(x)), Some(two)) {
                Some(next) => next,
                None => {
                    return None;
                },
            };
            let step = match next.minus(x) {
                Some(step) => step,
                None => {
                    return None;
                },
            };
            if step.abs().lt(&tolerance) {
                return Some(next.round_to(SQRT_PLACES));
            }
            x = next;
            round = round + 1;
        }
        Some(x.round_to(SQRT_PLACES))
    }

    /// Holds an impact against the limit.
    pub fn limit_impact(&self, impact: Option<Decimal>) -> (r: Result<Decimal, MarketMakerError>)
        requires
            self.wf(),
            opt_wf(impact),
        ensures
            r == self.limited(impact),
            r matches Ok(i) ==> i.wf() && 0 <= i@ <= self.max_impact()@,
    {
        match impact {
            Some(i) => {
                if i.gt(&self.max_impact) || i.is_negative() {
                    Err(MarketMakerError::PriceImpactTooHigh)
                } else {
                    Ok(i)
                }
            },
            None => Err(MarketMakerError::PriceImpactTooHigh),
        }
    }

    /// The price impact of `input_amount` on `reserve` at the given depth.
    /// It fails with `InsufficientLiquidity` where the reserve is zero and
    /// with `PriceImpactTooHigh` where the impact is above the limit, below
    /// zero, or cannot be formed. An impact that is handed out lies
    /// between zero and the limit.
    pub fn calculate_price_impact(
        &self,
        input_amount: Decimal,
        reserve: Decimal,
        depth_factor: Decimal,
    ) -> (r: Result<Decimal, MarketMakerError>)
        requires
            self.wf(),
            input_amount.wf(),
            reserve.wf(),
            depth_factor.wf(),
        ensures
            r == self.price_impact(input_amount, reserve, depth_factor),
            r matches Ok(i) ==> i.wf() && 0 <= i@ <= self.max_impact()@,
    {
        if reserve.is_zero() {
            return Err(MarketMakerError::InsufficientLiquidity);
        }
        let doubled = input_amount.times(Decimal::new(2, 0));
        let base = div_opt(Some(input_amount), add_opt(Some(reserve), doubled));
        let tenth = match reserve.times(Decimal::new(1, 1)) {
            Some(tenth) => tenth,
            None => {
                return Err(MarketMakerError::PriceImpactTooHigh);
            },
        };
        let adjusted = if input_amount.gt(&tenth) {
            let excess = sub_opt(input_amount.over(reserve), Some(Decimal::new(1, 1)));
            let weight = mul_opt(mul_opt(excess, Some(self.impact_multiplier)), Some(depth_factor));
            mul_opt(base, add_opt(Some(Decimal::one()), weight))
        } else {
            base
        };
        self.limit_impact(adjusted)
    }

    /// What `input_amount` gives against the two reserves after the price
    /// impact, and the impact. It fails with `InsufficientLiquidity` where
    /// a reserve is zero or the output is none that the pool can give, and
    /// as the price impact fails; where depth or output cannot be formed
    /// it fails with `PriceImpactTooHigh`. An impact that is handed out
    /// lies between zero and the limit, an output between zero and what
    /// the constant product gives.
    pub fn estimate_output_with_impact(
        &self,
        input_amount: Decimal,
        input_reserve: Decimal,
        output_reserve: Decimal,
    ) -> (r: Result<(Decimal, Decimal), MarketMakerError>)
        requires
            self.wf(),
            input_amount.wf(),
            input_reserve.wf(),
            output_reserve.wf(),
        ensures
            r == self.estimate_at(
                input_amount,
                input_reserve,
                output_reserve,
                depth_factor(input_reserve, output_reserve),
            ),
            r matches Ok(e) ==> e.0.wf() && e.1.wf() && 0 <= e.1@ <= self.max_impact()@,
            r matches Ok(e) ==> ideal_output(input_amount, input_reserve, output_reserve) matches Some(
                ideal,
            ) && output_in_bounds(input_amount, ideal, e.0, output_reserve),
    {
        if input_reserve.is_zero() || output_reserve.is_zero() {
            return Err(MarketMakerError::InsufficientLiquidity);
        }
        let ratio = if input_reserve.gt(&output_reserve) {
            input_reserve.over(output_reserve)
        } else {
            output_reserve.over(input_reserve)
        };
        let depth = match ratio {
            Some(q) => self.decimal_sqrt(q),
            None => None,
        };
        self.estimate_from_depth(input_amount, input_reserve, output_reserve, depth)
    }

    /// What `input_amount` gives against the two reserves at the depth
    /// that was found for them, and the impact.
    pub fn estimate_from_depth(
        &self,
        input_amount: Decimal,
        input_reserve: Decimal,
        output_reserve: Decimal,
        depth: Option<Decimal>,
    ) -> (r: Result<(Decimal, Decimal), MarketMakerError>)
        requires
            self.wf(),
            input_amount.wf(),
            input_reserve.wf(),
            output_reserve.wf(),
            opt_wf(depth),
        ensures
            r == self.estimate_at(input_amount, input_reserve, output_reserve, depth),
            r matches Ok(e) ==> e.0.wf() && e.1.wf() && 0 <= e.1@ <= self.max_impact()@,
            r matches Ok(e) ==> ideal_output(input_amount, input_reserve, output_reserve) matches Some(
                ideal,
            ) && output_in_bounds(input_amount, ideal, e.0, output_reserve),
    {
        if input_reserve.is_zero() || output_reserve.is_zero() {
            return Err(MarketMakerError::InsufficientLiquidity);
        }
        let d = match depth {
            Some(d) => d,
            None => {
                return Err(MarketMakerError::PriceImpactTooHigh);
            },
        };
        let impact = match self.calculate_price_impact(input_amount, input_reserve, d) {
            Ok(impact) => impact,
            Err(e) => {
                return Err(e);
            },
        };
        let k = input_reserve.times(output_reserve);
        let new_input_reserve = input_reserve.plus(input_amount);
        let ideal = sub_opt(Some(output_reserve), div_opt(k, new_input_reserve));
        let keep = sub_opt(Some(Decimal::one()), impact.times(Decimal::new(5, 1)));
        match (ideal, mul_opt(ideal, keep)) {
            (Some(ideal), Some(output)) => {
                proof {
                    crate::decimal::lemma_sign(output);
                    crate::decimal::lemma_sign(input_amount);
                }
                if !output.is_negative() && output.le(&ideal) && ideal.lt(&output_reserve) && (
                !output.is_zero() || !input_amount.gt(&Decimal::zero())) {
                    Ok((output, impact))
                } else {
                    Err(MarketMakerError::InsufficientLiquidity)
                }
            },
            _ => Err(MarketMakerError::PriceImpactTooHigh),
        }
    }
}

} // verus!
