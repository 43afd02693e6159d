//! An amount of one asset.

use vstd::prelude::*;
use crate::currency::CurrencyId;
use crate::types::Balance;

verus! {

/// So much of an asset.
#[derive(Clone, Copy, Debug, PartialEq, Eq)]
pub struct Amount {
    amount: Balance,
    currency_id: CurrencyId,
}

impl View for Amount {
    type V = (Balance, CurrencyId);

    closed spec fn view(&self) -> (Balance, CurrencyId) {
        (self.amount, self.currency_id)
    }
}

impl Amount {
    /// `amount` of the asset `currency_id`.
    pub fn new(amount: Balance, currency_id: CurrencyId) -> (r: Self)
        ensures
            r@ == (amount, currency_id),
    {
        Self { amount, currency_id }
    }

    /// How much it is.
    pub fn amount(&self) -> (r: Balance)
        ensures
            r == self@.0,
    {
        self.amount
    }

    /// The asset that it is an amount of.
    pub fn currency(&self) -> (r: CurrencyId)
        ensures
            r == self@.1,
    {
        self.currency_id
    }
}

} // verus!
