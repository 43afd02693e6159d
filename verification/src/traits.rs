//! Pairs of assets and the pools that trade them.

use vstd::prelude::*;
use crate::currency::CurrencyId;
use crate::fee::Fee;
use crate::types::AccountId;

verus! {

/// The two assets of a pool. Two pairs are equal when they hold the same two
/// assets, in either order.
#[derive(Clone, Copy, Debug, Eq)]
pub struct CurrencyPair {
    pub token_a: CurrencyId,
    pub token_b: CurrencyId,
}

impl CurrencyPair {
    /// The pair with its two assets exchanged.
    pub open spec fn spec_swap(self) -> CurrencyPair {
        CurrencyPair { token_a: self.token_b, token_b: self.token_a }
    }

    /// Whether `asset_id` is one of the two assets.
    pub open spec fn spec_contains(self, asset_id: CurrencyId) -> bool {
        self.token_a == asset_id || self.token_b == asset_id
    }

    /// Whether the two pairs hold the same assets, in either order.
    pub open spec fn same_assets(self, other: CurrencyPair) -> bool {
        (self.token_a == other.token_a && self.token_b == other.token_b) || (self.token_a
            == other.token_b && self.token_b == other.token_a)
    }

    /// The pair with its two assets exchanged.
    pub fn swap(&self) -> (r: Self)
        ensures
            r == self.spec_swap(),
    {
        Self { token_a: self.token_b, token_b: self.token_a }
    }

    /// Whether `asset_id` is one of the two assets.
    pub fn contains(&self, asset_id: CurrencyId) -> (r: bool)
        ensures
            r == self.spec_contains(asset_id),
    {
        self.token_a == asset_id || self.token_b == asset_id
    }

    /// Exchanging the assets twice gives the pair back, an exchanged pair is
    /// equal to the pair, and it contains what the pair contains.
    pub proof fn lemma_swap(self, asset_id: CurrencyId)
        ensures
            self.spec_swap().spec_swap() == self,
            self.same_assets(self.spec_swap()),
            self.spec_swap().spec_contains(asset_id) == self.spec_contains(asset_id),
    {
    }

    /// Equality of pairs is an equivalence: every pair equals itself, the
    /// order of comparison does not matter, and pairs equal to a third are
    /// equal to each other.
    pub proof fn lemma_same_assets_is_equivalence(self, other: CurrencyPair, third: CurrencyPair)
        ensures
            self.same_assets(self),
            self.same_assets(other) == other.same_assets(self),
            self.same_assets(other) && other.same_assets(third) ==> self.same_assets(third),
    {
    }
}

impl PartialEq for CurrencyPair {
    fn eq(&self, other: &Self) -> (r: bool) {
        (self.token_a == other.token_a && self.token_b == other.token_b) || (self.token_a
            == other.token_b && self.token_b == other.token_a)
    }
}

impl vstd::std_specs::cmp::PartialEqSpecImpl for CurrencyPair {
    open spec fn obeys_eq_spec() -> bool {
        true
    }

    open spec fn eq_spec(&self, other: &Self) -> bool {
        self.same_assets(*other)
    }
}

/// What a pool is created from.
#[derive(Clone, Copy, Debug, PartialEq, Eq)]
pub struct PoolCreationParams {
    pub owner: AccountId,
    pub pair: CurrencyPair,
    pub fee: Fee,
}

/// A liquidity pool.
#[derive(Clone, Copy, Debug, PartialEq, Eq)]
pub struct Pool {
    /// The account that created the pool.
    pub owner: AccountId,
    /// The two assets that the pool trades.
    pub pair: CurrencyPair,
    /// The asset that stands for a share of the pool.
    pub lp_token: CurrencyId,
    /// The fee taken on every swap.
    pub fee: Fee,
}

} // verus!
