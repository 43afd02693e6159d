//! An automated market maker: liquidity pools of two assets each, priced on
//! the constant-product curve with a proportional trading fee.
//!
//! The crate decides; the embedding runtime acts. Every operation reads the
//! pool registry and the balances that the asset ledger reported, and returns
//! the ledger instructions and the event that make up its effect.

pub mod types;
pub mod math;
pub mod fee;
pub mod error;
pub mod calc;
pub mod currency;
pub mod traits;
pub mod token_conversion;
pub mod liquidity;
pub mod ledger;
pub mod pallet;
pub mod guarantees;
pub mod amount;
