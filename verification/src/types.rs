//! The plain types that the exchange works on.

use vstd::prelude::*;

verus! {

/// An account of the asset ledger.
pub type AccountId = [u8; 32];

/// An amount of an asset.
pub type Balance = u128;

/// The number of a pool.
pub type PoolId = u128;

} // verus!
