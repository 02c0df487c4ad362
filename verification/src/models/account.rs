//! The account of a user: a balance, and a position in each symbol.

use vstd::prelude::*;
use crate::decimal::Decimal;
use crate::utils::lookup::{
    distinct,
    find_key,
    index_of,
    lemma_distinct_push,
    lemma_index_after_push,
    lemma_index_found,
};

verus! {

/// An account. The engines do not change accounts: to settle is the
/// caller's part. The position in the symbol `symbols[i]` is
/// `quantities[i]`.
#[derive(Clone, Debug)]
pub struct Account {
    pub user_id: u128,
    pub balance: Decimal,
    pub symbols: Vec<String>,
    pub quantities: Vec<Decimal>,
}

impl Account {
    /// A quantity is kept for every symbol that is kept, and no symbol is
    /// kept twice.
    pub open spec fn wf(&self) -> bool {
        self.symbols@.len() == self.quantities@.len() && distinct(self.symbols@)
    }

    /// The position in `symbol`: what was set for it, or zero.
    pub open spec fn position(&self, symbol: Seq<char>) -> Decimal {
        if index_of(self.symbols@, symbol, 0) < self.symbols@.len() {
            self.quantities@[index_of(self.symbols@, symbol, 0)]
        } else {
            crate::decimal::lit(0, 0)
        }
    }

    /// An account without positions.
    pub fn new(user_id: u128, balance: Decimal) -> (account: Account)
        ensures
            account.wf(),
            account.user_id == user_id,
            account.balance == balance,
            forall|symbol: Seq<char>| account.position(symbol) == crate::decimal::lit(0, 0),
    {
        Account { user_id, balance, symbols: Vec::new(), quantities: Vec::new() }
    }

    /// The position in `symbol`; zero where none was set.
    pub fn get_position(&self, symbol: &str) -> (quantity: Decimal)
        requires
            self.wf(),
        ensures
            quantity == self.position(symbol@),
    {
        match find_key(&self.symbols, symbol) {
            Some(i) => self.quantities[i],
            None => Decimal::zero(),
        }
    }

    /// Sets the position in `symbol`; the other positions stay.
    pub fn update_position(&mut self, symbol: &str, quantity: Decimal)
        requires
            old(self).wf(),
        ensures
            final(self).wf(),
            final(self).user_id == old(self).user_id,
            final(self).balance == old(self).balance,
            final(self).position(symbol@) == quantity,
            forall|other: Seq<char>|
                other != symbol@ ==> final(self).position(other) == old(self).position(other),
    {
        let ghost symbols = self.symbols@;
        let ghost quantities = self.quantities@;
        match find_key(&self.symbols, symbol) {
            Some(i) => {
                self.quantities.set(i, quantity);
                proof {
                    lemma_index_found(symbols, symbol@, 0);
                    assert forall|other: Seq<char>| other != symbol@ implies self.position(other)
                        == old(self).position(other) by {
                        lemma_index_found(symbols, other, 0);
                    }
                }
            },
            None => {
                let name = symbol.to_owned();
                self.symbols.push(name);
                self.quantities.push(quantity);
                proof {
                    lemma_distinct_push(symbols, name);
                    lemma_index_after_push(symbols, name, symbol@);
                    assert forall|other: Seq<char>| other != symbol@ implies self.position(other)
                        == old(self).position(other) by {
                        lemma_index_after_push(symbols, name, other);
                        lemma_index_found(symbols, other, 0);
                    }
                }
            },
        }
    }
}

} // verus!
