//! The guard that compares what a swap gives with the least that the
//! caller takes.

use vstd::prelude::*;
use crate::decimal::Decimal;
use crate::market_maker::types::MarketMakerError;

verus! {

pub struct SlippageProtection {
    max_slippage: Decimal,
}

/// The slippage of `actual_output` against `min_output`: their difference
/// as a part of `actual_output`. There is none where the difference or the
/// quotient cannot be formed, as where `actual_output` is zero.
pub open spec fn slippage(actual_output: Decimal, min_output: Decimal) -> Option<Decimal> {
    match actual_output.difference(min_output) {
        Some(gap) => gap.quotient(actual_output),
        None => None,
    }
}

impl SlippageProtection {
    /// The most slippage that passes.
    pub closed spec fn limit(&self) -> Decimal {
        self.max_slippage
    }

    /// The limit is an amount.
    pub open spec fn wf(&self) -> bool {
        self.limit().wf()
    }

    /// What the guard says of a slippage: it passes where it is no more
    /// than the limit. A slippage that could not be formed does not pass.
    pub open spec fn verdict(&self, slippage: Option<Decimal>) -> Result<(), MarketMakerError> {
        match slippage {
            Some(s) => if s@ > self.limit()@ {
                Err(MarketMakerError::SlippageExceeded)
            } else {
                Ok(())
            },
            None => Err(MarketMakerError::SlippageExceeded),
        }
    }

    pub fn new(max_slippage: Decimal) -> (guard: SlippageProtection)
        ensures
            guard.limit() == max_slippage,
    {
        SlippageProtection { max_slippage }
    }

    /// Judges a slippage that was formed, or could not be.
    pub fn judge(&self, slippage: Option<Decimal>) -> (r: Result<(), MarketMakerError>)
        requires
            self.wf(),
            slippage matches Some(s) ==> s.wf(),
        ensures
            r == self.verdict(slippage),
    {
        match slippage {
            Some(s) => {
                if s.gt(&self.max_slippage) {
                    Err(MarketMakerError::SlippageExceeded)
                } else {
                    Ok(())
                }
            },
            None => Err(MarketMakerError::SlippageExceeded),
        }
    }

    /// Forms the slippage of `actual_output` against `min_output` and
    /// judges it.
    pub fn check_slippage(&self, actual_output: Decimal, min_output: Decimal) -> (r: Result<
        (),
        MarketMakerError,
    >)
        requires
            self.wf(),
            actual_output.wf(),
            min_output.wf(),
        ensures
            r == self.verdict(slippage(actual_output, min_output)),
    {
        let s = match actual_output.minus(min_output) {
            Some(gap) => gap.over(actual_output),
            None => None,
        };
        self.judge(s)
    }
}

} // verus!
