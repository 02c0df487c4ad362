//! What the market maker keeps and hands out.

use vstd::prelude::*;
use crate::decimal::Decimal;

verus! {

/// A pool of two tokens.
#[derive(Clone, Debug)]
pub struct Pool {
    pub id: u128,
    pub token_a: String,
    pub token_b: String,
    pub reserve_a: Decimal,
    pub reserve_b: Decimal,
    pub fee_percentage: Decimal,
}

impl Pool {
    /// The reserves are amounts and not negative; the fee is an amount.
    pub open spec fn wf(&self) -> bool {
        &&& self.reserve_a.wf()
        &&& self.reserve_b.wf()
        &&& self.fee_percentage.wf()
        &&& self.reserve_a@ >= 0
        &&& self.reserve_b@ >= 0
    }

    /// A copy of the record.
    pub fn duplicate(&self) -> (p: Pool)
        ensures
            p == *self,
    {
        Pool {
            id: self.id,
            token_a: self.token_a.clone(),
            token_b: self.token_b.clone(),
            reserve_a: self.reserve_a,
            reserve_b: self.reserve_b,
            fee_percentage: self.fee_percentage,
        }
    }
}

/// What one provider has put into a pool.
#[derive(Clone, Copy, Debug)]
pub struct PoolPosition {
    pub pool_id: u128,
    pub provider_id: u128,
    pub token_a_amount: Decimal,
    pub token_b_amount: Decimal,
    pub share_percentage: Decimal,
}

/// A quote, or a swap that was made.
#[derive(Clone, Copy, Debug)]
pub struct SwapResult {
    pub input_amount: Decimal,
    pub output_amount: Decimal,
    pub price_impact: Decimal,
    pub fee_amount: Decimal,
}

#[derive(Clone, Copy, Debug, PartialEq, Eq, Structural)]
pub enum MarketMakerError {
    InsufficientLiquidity,
    PriceImpactTooHigh,
    SlippageExceeded,
    InvalidPoolParameters,
}

impl MarketMakerError {
    /// The words for the error.
    pub open spec fn text(self) -> Seq<char> {
        match self {
            MarketMakerError::InsufficientLiquidity => "Insufficient liquidity"@,
            MarketMakerError::PriceImpactTooHigh => "Price impact too high"@,
            MarketMakerError::SlippageExceeded => "Slippage exceeded"@,
            MarketMakerError::InvalidPoolParameters => "Invalid pool parameters"@,
        }
    }

    /// The words for the error.
    pub fn message(&self) -> (s: &'static str)
        ensures
            s@ == self.text(),
    {
        match self {
            MarketMakerError::InsufficientLiquidity => "Insufficient liquidity",
            MarketMakerError::PriceImpactTooHigh => "Price impact too high",
            MarketMakerError::SlippageExceeded => "Slippage exceeded",
            MarketMakerError::InvalidPoolParameters => "Invalid pool parameters",
        }
    }
}

} // verus!
