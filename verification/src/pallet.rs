//! The exchange: the registry of pools and the operations on them.
//!
//! The registry is the only state. An operation reads it together with the
//! balances that the ledger reported, and answers with an [`Outcome`]: the
//! instructions to the ledger and the event to publish. Creating a pool is
//! the one operation that changes the registry.

use vstd::prelude::*;
use crate::calc::{get_amount_in, get_amount_out, spec_get_amount_in, spec_get_amount_out};
use crate::currency::CurrencyId;
use crate::error::Error;
use crate::fee::Fee;
use crate::ledger::{Balances, Instruction};
use crate::liquidity::{
    deposit_amounts, exchange_value, liquidity_to_mint, spec_deposit_amounts, spec_exchange_value,
    spec_liquidity_to_mint, spec_withdrawal_amounts, withdrawal_amounts,
};
use crate::math::spec_saturating_sub;
use crate::token_conversion::{is_unlookup, CurrencyConversion};
use crate::traits::{CurrencyPair, Pool, PoolCreationParams};
use crate::types::{AccountId, Balance, PoolId};
use sp_runtime::traits::AccountIdConversion;

verus! {

/// What the exchange tells the world of a completed operation.
#[derive(Clone, Copy, Debug, PartialEq, Eq)]
pub enum Event {
    /// A new pool was created.
    PoolCreated { pool_id: PoolId, owner: AccountId, assets: CurrencyPair },
    /// Liquidity was added to a pool.
    LiquidityAdded {
        who: AccountId,
        pool_id: PoolId,
        amount_a: Balance,
        amount_b: Balance,
        minted_lp: Balance,
    },
    /// Liquidity was removed from a pool. `total_issuance` is the issuance of
    /// the liquidity token after the removal.
    LiquidityRemoved {
        who: AccountId,
        pool_id: PoolId,
        amount_a: Balance,
        amount_b: Balance,
        total_issuance: Balance,
    },
    /// `amount_b` of `token_b` was paid in for `amount_a` of `token_a`.
    Swapped {
        who: AccountId,
        pool_id: PoolId,
        token_a: CurrencyId,
        token_b: CurrencyId,
        amount_a: Balance,
        amount_b: Balance,
        fee: Fee,
    },
}

/// The effect of an operation: what the ledger is to do, in this order, and
/// the event to publish once it has done all of it.
#[derive(Debug, PartialEq, Eq)]
pub struct Outcome {
    pub instructions: Vec<Instruction>,
    pub event: Event,
}

/// An [`Outcome`] as a mathematical value.
pub struct OutcomeView {
    pub instructions: Seq<Instruction>,
    pub event: Event,
}

impl View for Outcome {
    type V = OutcomeView;

    open spec fn view(&self) -> OutcomeView {
        OutcomeView { instructions: self.instructions@, event: self.event }
    }
}

/// Whether an operation gave the answer that is laid down for it.
pub open spec fn answers(given: Result<Outcome, Error>, specified: Result<OutcomeView, Error>) -> bool {
    match (given, specified) {
        (Ok(outcome), Ok(view)) => outcome@ == view,
        (Err(e), Err(f)) => e == f,
        _ => false,
    }
}

/// A pool as the registry holds it.
#[derive(Clone, Copy, Debug, PartialEq, Eq)]
pub struct PoolEntry {
    pub pool_id: PoolId,
    pub pool: Pool,
    /// The custody account, which holds the reserves of the pool.
    pub account: AccountId,
}

/// The account that is derived from a pallet id and a pool id: the bytes
/// `modl`, the eight bytes of the pallet id, the sixteen bytes of the pool id
/// with the lowest first, and four bytes of zero.
pub open spec fn spec_sub_account(pallet_id: Seq<u8>, pool_id: PoolId) -> Seq<u8> {
    seq![0x6du8, 0x6fu8, 0x64u8, 0x6cu8] + pallet_id + vstd::bytes::spec_u128_to_le_bytes(pool_id)
        + seq![0u8, 0u8, 0u8, 0u8]
}

/// `into_sub_account_truncating` of `sp_runtime::traits::AccountIdConversion`
/// on a `frame_support::PalletId`, with a `u128` as the sub-account and 32
/// bytes as the account. It encodes the type id `modl`, the pallet id and the
/// sub-account one after the other, each as its bytes and the integer with its
/// lowest byte first, and decodes the account from that, filling up with
/// zeros.
#[verifier::external_body]
fn into_sub_account_truncating(pallet_id: &[u8; 8], pool_id: PoolId) -> (account: AccountId)
    ensures
        account@ == spec_sub_account(pallet_id@, pool_id),
{
    frame_support::PalletId(*pallet_id).into_sub_account_truncating(pool_id)
}

/// Whether two accounts hold the same bytes.
fn same_account(a: &AccountId, b: &AccountId) -> (r: bool)
    ensures
        r == (a@ == b@),
{
    let mut i: usize = 0;
    while i < 32
        invariant
            0 <= i <= 32,
            forall|j: int| 0 <= j < i ==> a@[j] == b@[j],
        decreases 32 - i,
    {
        if a[i] != b[i] {
            return false;
        }
        i += 1;
    }
    proof {
        assert(a@ =~= b@);
    }
    true
}

/// The registry of an exchange as a mathematical value.
pub struct PalletView {
    /// The id from which custody accounts are derived.
    pub pallet_id: [u8; 8],
    /// The number of pools created so far, which is the id of the next.
    pub pool_count: PoolId,
    /// The pools, in the order of their creation.
    pub entries: Seq<PoolEntry>,
}

impl PalletView {
    /// Whether the entry at `index` is the pool `pool_id`.
    pub open spec fn holds_at(self, index: int, pool_id: PoolId) -> bool {
        0 <= index < self.entries.len() && self.entries[index].pool_id == pool_id
    }

    /// The entry of pool `pool_id`, where there is one.
    pub open spec fn entry(self, pool_id: PoolId) -> Option<PoolEntry> {
        if exists|index: int| self.holds_at(index, pool_id) {
            Some(self.entries[choose|index: int| self.holds_at(index, pool_id)])
        } else {
            None
        }
    }

    /// The pools by their ids.
    pub open spec fn pools(self) -> Map<PoolId, Pool> {
        Map::new(|pool_id: PoolId| self.entry(pool_id) is Some, |pool_id: PoolId| self.entry(pool_id)->0.pool)
    }

    /// The custody accounts of the pools by the pools' ids.
    pub open spec fn pool_accounts(self) -> Map<PoolId, AccountId> {
        Map::new(
            |pool_id: PoolId| self.entry(pool_id) is Some,
            |pool_id: PoolId| self.entry(pool_id)->0.account,
        )
    }

    /// Whether an entry is as the exchange makes it: its liquidity token and
    /// its custody account are the ones derived from its pair and its id.
    pub open spec fn derived(self, entry: PoolEntry) -> bool {
        &&& is_unlookup(entry.pool.pair.token_a, entry.pool.pair.token_b, entry.pool.lp_token)
        &&& entry.account@ == spec_sub_account(self.pallet_id@, entry.pool_id)
    }

    /// The invariant of the registry: the ids rise from entry to entry and
    /// stay below the pool count, and every entry is as the exchange makes it.
    pub open spec fn wf(self) -> bool {
        &&& forall|i: int, j: int|
            0 <= i < j < self.entries.len() ==> self.entries[i].pool_id < self.entries[j].pool_id
        &&& forall|i: int|
            0 <= i < self.entries.len() ==> #[trigger] self.entries[i].pool_id < self.pool_count
        &&& forall|i: int| 0 <= i < self.entries.len() ==> self.derived(#[trigger] self.entries[i])
    }

    /// In a well-formed registry the entry of a pool is the one entry with
    /// its id.
    pub proof fn lemma_entry_at(self, index: int)
        requires
            self.wf(),
            0 <= index < self.entries.len(),
        ensures
            self.entry(self.entries[index].pool_id) == Some(self.entries[index]),
    {
        let pool_id = self.entries[index].pool_id;
        assert(self.holds_at(index, pool_id));
        let chosen = choose|i: int| self.holds_at(i, pool_id);
        assert(self.holds_at(chosen, pool_id));
        if chosen < index {
            assert(self.entries[chosen].pool_id < self.entries[index].pool_id);
        } else if index < chosen {
            assert(self.entries[index].pool_id < self.entries[chosen].pool_id);
        }
    }

    /// In a well-formed registry every pool has an id below the pool count,
    /// is filed under its own id, and is as the exchange makes it.
    pub proof fn lemma_entry_is_derived(self, pool_id: PoolId)
        requires
            self.wf(),
        ensures
            self.entry(pool_id) matches Some(entry) ==> {
                &&& entry.pool_id == pool_id
                &&& pool_id < self.pool_count
                &&& self.derived(entry)
            },
    {
        if self.entry(pool_id) is Some {
            let chosen = choose|i: int| self.holds_at(i, pool_id);
            assert(self.holds_at(chosen, pool_id));
        }
    }
}


impl PalletView {
    /// The pool `pool_id`, or `PoolNotFound`.
    pub open spec fn get_pool(self, pool_id: PoolId) -> Result<Pool, Error> {
        match self.entry(pool_id) {
            Some(entry) => Ok(entry.pool),
            None => Err(Error::PoolNotFound),
        }
    }

    /// The answer to `add_liquidity`. The deposit takes what
    /// `spec_deposit_amounts` says, is refused with `InsufficientBalance`
    /// where the caller holds less of either asset, and mints what
    /// `spec_liquidity_to_mint` says. Both amounts go from the caller to the
    /// custody account, and the minted liquidity tokens to the caller.
    pub open spec fn add_liquidity(
        self,
        who: AccountId,
        pool_id: PoolId,
        amount: Balance,
        asset: CurrencyId,
        balances: Balances,
    ) -> Result<OutcomeView, Error> {
        match self.entry(pool_id) {
            None => Err(Error::PoolNotFound),
            Some(entry) => match spec_deposit_amounts(
                entry.pool.pair,
                asset,
                amount,
                balances.reserve_a,
                balances.reserve_b,
            ) {
                Err(e) => Err(e),
                Ok((amount_a, amount_b)) => if balances.user_a < amount_a || balances.user_b
                    < amount_b {
                    Err(Error::InsufficientBalance)
                } else {
                    match spec_liquidity_to_mint(
                        amount_a,
                        amount_b,
                        balances.reserve_a,
                        balances.reserve_b,
                        balances.total_issuance,
                    ) {
                        Err(e) => Err(e),
                        Ok(minted_lp) => Ok(
                            OutcomeView {
                                instructions: seq![
                                    Instruction::Transfer {
                                        asset: entry.pool.pair.token_a,
                                        from: who,
                                        to: entry.account,
                                        amount: amount_a,
                                    },
                                    Instruction::Transfer {
                                        asset: entry.pool.pair.token_b,
                                        from: who,
                                        to: entry.account,
                                        amount: amount_b,
                                    },
                                    Instruction::Deposit {
                                        asset: entry.pool.lp_token,
                                        who,
                                        amount: minted_lp,
                                    },
                                ],
                                event: Event::LiquidityAdded {
                                    who,
                                    pool_id,
                                    amount_a,
                                    amount_b,
                                    minted_lp,
                                },
                            },
                        ),
                    }
                },
            },
        }
    }

    /// The answer to `remove_liquidity`. The removal is refused with
    /// `WithdrawWithoutSupply` where no liquidity token is in issue, then with
    /// `InsufficientLiquidityBalance` where the caller holds fewer than
    /// `lp_amount`, and pays out what `spec_withdrawal_amounts` says. Both
    /// amounts go from the custody account to the caller, whose liquidity
    /// tokens are burned.
    pub open spec fn remove_liquidity(
        self,
        who: AccountId,
        pool_id: PoolId,
        lp_amount: Balance,
        balances: Balances,
    ) -> Result<OutcomeView, Error> {
        match self.entry(pool_id) {
            None => Err(Error::PoolNotFound),
            Some(entry) => if balances.total_issuance == 0 {
                Err(Error::WithdrawWithoutSupply)
            } else if balances.user_lp < lp_amount {
                Err(Error::InsufficientLiquidityBalance)
            } else {
                match spec_withdrawal_amounts(
                    lp_amount,
                    balances.reserve_a,
                    balances.reserve_b,
                    balances.total_issuance,
                ) {
                    Err(e) => Err(e),
                    Ok((amount_a, amount_b)) => Ok(
                        OutcomeView {
                            instructions: seq![
                                Instruction::Transfer {
                                    asset: entry.pool.pair.token_a,
                                    from: entry.account,
                                    to: who,
                                    amount: amount_a,
                                },
                                Instruction::Transfer {
                                    asset: entry.pool.pair.token_b,
                                    from: entry.account,
                                    to: who,
                                    amount: amount_b,
                                },
                                Instruction::Withdraw {
                                    asset: entry.pool.lp_token,
                                    who,
                                    amount: lp_amount,
                                },
                            ],
                            event: Event::LiquidityRemoved {
                                who,
                                pool_id,
                                amount_a,
                                amount_b,
                                total_issuance: spec_saturating_sub(
                                    balances.total_issuance,
                                    lp_amount,
                                ),
                            },
                        },
                    ),
                }
            },
        }
    }

    /// The answer to `swap`. The swap is refused with `PairMismatch` where
    /// `pair` does not hold the assets of the pool. It sells `amount_b` of
    /// `pair.token_b` for what `spec_get_amount_out` says of `pair.token_a`,
    /// priced against the reserves of these two assets, and is refused with
    /// `InvalidAmount` where that is nothing. The amount sold goes from the
    /// caller to the custody account, the amount bought the other way.
    pub open spec fn swap(
        self,
        who: AccountId,
        pool_id: PoolId,
        pair: CurrencyPair,
        amount_b: Balance,
        balances: Balances,
    ) -> Result<OutcomeView, Error> {
        match self.entry(pool_id) {
            None => Err(Error::PoolNotFound),
            Some(entry) => if !pair.same_assets(entry.pool.pair) {
                Err(Error::PairMismatch)
            } else {
                match spec_get_amount_out(
                    amount_b,
                    balances.spec_reserve_of(entry.pool.pair, pair.token_b),
                    balances.spec_reserve_of(entry.pool.pair, pair.token_a),
                    entry.pool.fee,
                ) {
                    Err(e) => Err(e),
                    Ok(amount_a) => if amount_a == 0 {
                        Err(Error::InvalidAmount)
                    } else {
                        Ok(
                            OutcomeView {
                                instructions: seq![
                                    Instruction::Transfer {
                                        asset: pair.token_b,
                                        from: who,
                                        to: entry.account,
                                        amount: amount_b,
                                    },
                                    Instruction::Transfer {
                                        asset: pair.token_a,
                                        from: entry.account,
                                        to: who,
                                        amount: amount_a,
                                    },
                                ],
                                event: Event::Swapped {
                                    who,
                                    pool_id,
                                    token_a: pair.token_a,
                                    token_b: pair.token_b,
                                    amount_a,
                                    amount_b,
                                    fee: entry.pool.fee,
                                },
                            },
                        )
                    },
                }
            },
        }
    }

    /// The pair of a pool, ordered so that `asset_id` comes first.
    pub open spec fn pair_with_first(pair: CurrencyPair, asset_id: CurrencyId) -> CurrencyPair {
        if asset_id == pair.token_a {
            pair
        } else {
            pair.spec_swap()
        }
    }

    /// The answer to `buy`: refused with `InvalidAsset` where `asset_id` is
    /// not of the pool; else the swap that pays for `amount` of `asset_id`
    /// what `spec_get_amount_in` says of the other asset.
    pub open spec fn buy(
        self,
        who: AccountId,
        pool_id: PoolId,
        asset_id: CurrencyId,
        amount: Balance,
        balances: Balances,
    ) -> Result<OutcomeView, Error> {
        match self.entry(pool_id) {
            None => Err(Error::PoolNotFound),
            Some(entry) => if !entry.pool.pair.spec_contains(asset_id) {
                Err(Error::InvalidAsset)
            } else {
                let pair = Self::pair_with_first(entry.pool.pair, asset_id);
                match spec_get_amount_in(
                    amount,
                    balances.spec_reserve_of(entry.pool.pair, pair.token_b),
                    balances.spec_reserve_of(entry.pool.pair, pair.token_a),
                    entry.pool.fee,
                ) {
                    Err(e) => Err(e),
                    Ok(sell_amount) => self.swap(who, pool_id, pair, sell_amount, balances),
                }
            },
        }
    }

    /// The answer to `sell`: refused with `InvalidAsset` where `asset_id` is
    /// not of the pool; else the swap that sells `amount` of `asset_id` for
    /// the other asset.
    pub open spec fn sell(
        self,
        who: AccountId,
        pool_id: PoolId,
        asset_id: CurrencyId,
        amount: Balance,
        balances: Balances,
    ) -> Result<OutcomeView, Error> {
        match self.entry(pool_id) {
            None => Err(Error::PoolNotFound),
            Some(entry) => if !entry.pool.pair.spec_contains(asset_id) {
                Err(Error::InvalidAsset)
            } else {
                self.swap(
                    who,
                    pool_id,
                    Self::pair_with_first(entry.pool.pair, asset_id).spec_swap(),
                    amount,
                    balances,
                )
            },
        }
    }
}

/// The exchange: its pallet id, the number of pools created, and the pools.
#[derive(Debug)]
pub struct Pallet {
    pallet_id: [u8; 8],
    pool_count: PoolId,
    entries: Vec<PoolEntry>,
}

impl View for Pallet {
    type V = PalletView;

    closed spec fn view(&self) -> PalletView {
        PalletView { pallet_id: self.pallet_id, pool_count: self.pool_count, entries: self.entries@ }
    }
}

impl Pallet {
    #[verifier::type_invariant]
    spec fn well_formed(self) -> bool {
        self@.wf()
    }

    /// An exchange without pools.
    pub fn new(pallet_id: [u8; 8]) -> (pallet: Pallet)
        ensures
            pallet@.pallet_id == pallet_id,
            pallet@.pool_count == 0,
            pallet@.entries.len() == 0,
            pallet@.wf(),
    {
        Pallet { pallet_id, pool_count: 0, entries: Vec::new() }
    }

    /// The exchange with the given pool count and pools, where these make a
    /// well-formed registry: the ids rise from entry to entry and stay below
    /// the pool count, and every liquidity token and custody account is the
    /// one derived from the pair and the id.
    pub fn restore(pallet_id: [u8; 8], pool_count: PoolId, entries: Vec<PoolEntry>) -> (r: Option<
        Pallet,
    >)
        ensures
            r is Some <==> (PalletView { pallet_id, pool_count, entries: entries@ }).wf(),
            r matches Some(pallet) ==> pallet@ == (PalletView {
                pallet_id,
                pool_count,
                entries: entries@,
            }),
    {
        let ghost view = PalletView { pallet_id, pool_count, entries: entries@ };
        let mut i: usize = 0;
        while i < entries.len()
            invariant
                0 <= i <= entries.len(),
                view == (PalletView { pallet_id, pool_count, entries: entries@ }),
                forall|a: int, b: int|
                    0 <= a < b < i ==> view.entries[a].pool_id < view.entries[b].pool_id,
                forall|a: int| 0 <= a < i ==> #[trigger] view.entries[a].pool_id < pool_count,
                forall|a: int| 0 <= a < i ==> view.derived(#[trigger] view.entries[a]),
            decreases entries.len() - i,
        {
            let entry: PoolEntry = entries[i];
            if entry.pool_id >= pool_count {
                return None;
            }
            if i > 0 && entries[i - 1].pool_id >= entry.pool_id {
                return None;
            }
            let lp_token: CurrencyId = CurrencyConversion::unlookup(
                (entry.pool.pair.token_a, entry.pool.pair.token_b),
            );
            if lp_token != entry.pool.lp_token {
                proof {
                    if view.derived(entry) {
                        crate::token_conversion::lemma_unlookup_is_a_function(
                            entry.pool.pair.token_a,
                            entry.pool.pair.token_b,
                            lp_token,
                            entry.pool.lp_token,
                        );
                    }
                }
                return None;
            }
            let account: AccountId = into_sub_account_truncating(&pallet_id, entry.pool_id);
            if !same_account(&account, &entry.account) {
                return None;
            }
            i += 1;
        }
        Some(Pallet { pallet_id, pool_count, entries })
    }

    /// The pools, in the order of their creation.
    pub fn entries(&self) -> (entries: Vec<PoolEntry>)
        ensures
            entries@ == self@.entries,
    {
        let mut entries: Vec<PoolEntry> = Vec::new();
        let mut i: usize = 0;
        while i < self.entries.len()
            invariant
                0 <= i <= self.entries.len(),
                entries@ == self.entries@.take(i as int),
            decreases self.entries.len() - i,
        {
            entries.push(self.entries[i]);
            proof {
                assert(self.entries@.take(i + 1) =~= self.entries@.take(i as int).push(
                    self.entries@[i as int],
                ));
            }
            i += 1;
        }
        proof {
            assert(self.entries@.take(self.entries@.len() as int) =~= self.entries@);
        }
        entries
    }

    /// The id from which the custody accounts are derived.
    pub fn pallet_id(&self) -> (pallet_id: [u8; 8])
        ensures
            pallet_id == self@.pallet_id,
    {
        self.pallet_id
    }

    /// The number of pools created so far.
    pub fn pool_count(&self) -> (count: PoolId)
        ensures
            count == self@.pool_count,
    {
        self.pool_count
    }

    /// The entry of pool `pool_id`.
    fn find(&self, pool_id: PoolId) -> (r: Option<PoolEntry>)
        ensures
            r == self@.entry(pool_id),
            self@.wf(),
    {
        proof {
            use_type_invariant(self);
        }
        let mut i: usize = 0;
        while i < self.entries.len()
            invariant
                0 <= i <= self.entries.len(),
                self@.wf(),
                forall|j: int| 0 <= j < i ==> !self@.holds_at(j, pool_id),
            decreases self.entries.len() - i,
        {
            if self.entries[i].pool_id == pool_id {
                proof {
                    self@.lemma_entry_at(i as int);
                }
                return Some(self.entries[i]);
            }
            i += 1;
        }
        None
    }

    /// The pool `pool_id`, where there is one.
    pub fn pools(&self, pool_id: PoolId) -> (r: Option<Pool>)
        ensures
            r == (match self@.entry(pool_id) {
                Some(entry) => Some(entry.pool),
                None => None,
            }),
    {
        match self.find(pool_id) {
            Some(entry) => Some(entry.pool),
            None => None,
        }
    }

    /// The custody account of pool `pool_id`, where there is such a pool.
    pub fn pool_accounts(&self, pool_id: PoolId) -> (r: Option<AccountId>)
        ensures
            r == (match self@.entry(pool_id) {
                Some(entry) => Some(entry.account),
                None => None,
            }),
    {
        match self.find(pool_id) {
            Some(entry) => Some(entry.account),
            None => None,
        }
    }

    /// The pool `pool_id`.
    pub fn get_pool(&self, pool_id: PoolId) -> (r: Result<Pool, Error>)
        ensures
            r == self@.get_pool(pool_id),
    {
        match self.find(pool_id) {
            Some(entry) => Ok(entry.pool),
            None => Err(Error::PoolNotFound),
        }
    }

    /// The custody account that belongs to the id `pool_id`, whether or not
    /// there is such a pool.
    pub fn account_id(&self, pool_id: &PoolId) -> (account: AccountId)
        ensures
            account@ == spec_sub_account(self@.pallet_id@, *pool_id),
    {
        into_sub_account_truncating(&self.pallet_id, *pool_id)
    }

    /// Files a new pool under the next id and gives that id back. The
    /// liquidity token is derived from the pair, the custody account from the
    /// id. Where the pool count cannot be advanced, nothing changes.
    pub fn do_create_pool(&mut self, pool_params: PoolCreationParams) -> (r: Result<PoolId, Error>)
        ensures
            final(self)@.pallet_id == old(self)@.pallet_id,
            final(self)@.wf(),
            old(self)@.pool_count == u128::MAX ==> {
                &&& r == Err::<PoolId, Error>(Error::MaximumPoolCountReached)
                &&& final(self)@ == old(self)@
            },
            old(self)@.pool_count < u128::MAX ==> {
                &&& r == Ok::<PoolId, Error>(old(self)@.pool_count)
                &&& final(self)@.pool_count == old(self)@.pool_count + 1
                &&& final(self)@.entries.len() == old(self)@.entries.len() + 1
                &&& final(self)@.entries.drop_last() == old(self)@.entries
                &&& final(self)@.entries.last().pool_id == old(self)@.pool_count
                &&& final(self)@.entries.last().pool.owner == pool_params.owner
                &&& final(self)@.entries.last().pool.pair == pool_params.pair
                &&& final(self)@.entries.last().pool.fee == pool_params.fee
                &&& final(self)@.derived(final(self)@.entries.last())
                &&& final(self)@.entry(old(self)@.pool_count) == Some(final(self)@.entries.last())
                &&& forall|other: PoolId|
                    other != old(self)@.pool_count ==> final(self)@.entry(other) == old(
                        self,
                    )@.entry(other)
            },
    {
        proof {
            use_type_invariant(&*self);
        }
        // Derive the liquidity token from the pair.
        let pair: CurrencyPair = pool_params.pair;
        let lp_token: CurrencyId = CurrencyConversion::unlookup((pair.token_a, pair.token_b));
        let pool: Pool = Pool { lp_token, pair: pool_params.pair, owner: pool_params.owner, fee: pool_params.fee };
        let pool_id: PoolId = self.pool_count;
        match pool_id.checked_add(1) {
            None => Err(Error::MaximumPoolCountReached),
            Some(next) => {
                let account: AccountId = self.account_id(&pool_id);
                let entry: PoolEntry = PoolEntry { pool_id, pool, account };
                let ghost before = self@;
                let mut taken: Pallet = Pallet::new(self.pallet_id);
                core::mem::swap(self, &mut taken);
                let Pallet { pallet_id, pool_count: _, entries } = taken;
                let mut entries: Vec<PoolEntry> = entries;
                entries.push(entry);
                proof {
                    let after = PalletView { pallet_id, pool_count: next, entries: entries@ };
                    assert(after.entries.drop_last() =~= before.entries);
                    assert(after.wf());
                    lemma_entries_after_create(before, after);
                }
                *self = Pallet { pallet_id, pool_count: next, entries };
                Ok(pool_id)
            },
        }
    }
}

impl PalletView {
    /// The answer to `create_pool` where the pool count can be advanced:
    /// nothing for the ledger to do, and the event of the creation.
    pub open spec fn pool_created(self, pool_params: PoolCreationParams) -> OutcomeView {
        OutcomeView {
            instructions: Seq::empty(),
            event: Event::PoolCreated {
                pool_id: self.pool_count,
                owner: pool_params.owner,
                assets: pool_params.pair,
            },
        }
    }

    /// The answer to `pool_exists`.
    pub open spec fn pool_exists(self, pool_id: PoolId) -> bool {
        self.entry(pool_id) is Some
    }

    /// The answer to `currency_pair`.
    pub open spec fn currency_pair(self, pool_id: PoolId) -> Result<CurrencyPair, Error> {
        match self.entry(pool_id) {
            Some(entry) => Ok(entry.pool.pair),
            None => Err(Error::PoolNotFound),
        }
    }

    /// The answer to `lp_token`.
    pub open spec fn lp_token(self, pool_id: PoolId) -> Result<CurrencyId, Error> {
        match self.entry(pool_id) {
            Some(entry) => Ok(entry.pool.lp_token),
            None => Err(Error::PoolNotFound),
        }
    }

    /// The answer to `pool_reserves`: the two reserves that the ledger
    /// reported.
    pub open spec fn pool_reserves(self, pool_id: PoolId, balances: Balances) -> Result<
        (Balance, Balance),
        Error,
    > {
        match self.entry(pool_id) {
            Some(_) => Ok((balances.reserve_a, balances.reserve_b)),
            None => Err(Error::PoolNotFound),
        }
    }

    /// The answer to `get_exchange_value`.
    pub open spec fn get_exchange_value(
        self,
        pool_id: PoolId,
        asset_id: CurrencyId,
        amount: Balance,
        balances: Balances,
    ) -> Result<Balance, Error> {
        match self.entry(pool_id) {
            None => Err(Error::PoolNotFound),
            Some(entry) => spec_exchange_value(
                entry.pool.pair,
                asset_id,
                amount,
                balances.reserve_a,
                balances.reserve_b,
            ),
        }
    }
}

impl Pallet {
    /// Creates a pool with the given parameters. Where the pool count cannot
    /// be advanced, nothing changes.
    pub fn create_pool(&mut self, pool_params: PoolCreationParams) -> (r: Result<Outcome, Error>)
        ensures
            final(self)@.pallet_id == old(self)@.pallet_id,
            final(self)@.wf(),
            old(self)@.pool_count == u128::MAX ==> {
                &&& r matches Err(Error::MaximumPoolCountReached)
                &&& final(self)@ == old(self)@
            },
            old(self)@.pool_count < u128::MAX ==> {
                &&& r matches Ok(outcome) && outcome@ == old(self)@.pool_created(pool_params)
                &&& final(self)@.pool_count == old(self)@.pool_count + 1
                &&& final(self)@.entries.len() == old(self)@.entries.len() + 1
                &&& final(self)@.entries.drop_last() == old(self)@.entries
                &&& final(self)@.entries.last().pool_id == old(self)@.pool_count
                &&& final(self)@.entries.last().pool.owner == pool_params.owner
                &&& final(self)@.entries.last().pool.pair == pool_params.pair
                &&& final(self)@.entries.last().pool.fee == pool_params.fee
                &&& final(self)@.derived(final(self)@.entries.last())
                &&& final(self)@.entry(old(self)@.pool_count) == Some(final(self)@.entries.last())
                &&& forall|other: PoolId|
                    other != old(self)@.pool_count ==> final(self)@.entry(other) == old(
                        self,
                    )@.entry(other)
            },
    {
        match self.do_create_pool(pool_params) {
            Ok(pool_id) => Ok(
                Outcome {
                    instructions: Vec::new(),
                    event: Event::PoolCreated {
                        pool_id,
                        owner: pool_params.owner,
                        assets: pool_params.pair,
                    },
                },
            ),
            Err(e) => Err(e),
        }
    }

    /// Whether there is a pool `pool_id`.
    pub fn pool_exists(&self, pool_id: PoolId) -> (r: bool)
        ensures
            r == self@.pool_exists(pool_id),
    {
        self.find(pool_id).is_some()
    }

    /// The two assets of pool `pool_id`.
    pub fn currency_pair(&self, pool_id: PoolId) -> (r: Result<CurrencyPair, Error>)
        ensures
            r == self@.currency_pair(pool_id),
    {
        match self.get_pool(pool_id) {
            Ok(pool) => Ok(pool.pair),
            Err(e) => Err(e),
        }
    }

    /// The liquidity token of pool `pool_id`.
    pub fn lp_token(&self, pool_id: PoolId) -> (r: Result<CurrencyId, Error>)
        ensures
            r == self@.lp_token(pool_id),
    {
        match self.get_pool(pool_id) {
            Ok(pool) => Ok(pool.lp_token),
            Err(e) => Err(e),
        }
    }

    /// The two reserves of pool `pool_id`, as the ledger reported them.
    pub fn pool_reserves(&self, pool_id: PoolId, balances: &Balances) -> (r: Result<
        (Balance, Balance),
        Error,
    >)
        ensures
            r == self@.pool_reserves(pool_id, *balances),
    {
        match self.get_pool(pool_id) {
            Ok(_) => Ok((balances.reserve_a, balances.reserve_b)),
            Err(e) => Err(e),
        }
    }

    /// The value of `amount` of `asset_id` in the other asset of pool
    /// `pool_id`, at the ratio of its reserves.
    pub fn get_exchange_value(
        &self,
        pool_id: PoolId,
        asset_id: CurrencyId,
        amount: Balance,
        balances: &Balances,
    ) -> (r: Result<Balance, Error>)
        ensures
            r == self@.get_exchange_value(pool_id, asset_id, amount, *balances),
    {
        match self.get_pool(pool_id) {
            Ok(pool) => exchange_value(
                &pool.pair,
                asset_id,
                amount,
                balances.reserve_a,
                balances.reserve_b,
            ),
            Err(e) => Err(e),
        }
    }

    /// Buys `amount` of `asset_id` from pool `pool_id`: works out what that
    /// costs of the other asset, and swaps that.
    pub fn buy(
        &self,
        who: &AccountId,
        pool_id: PoolId,
        asset_id: CurrencyId,
        amount: Balance,
        balances: &Balances,
    ) -> (r: Result<Outcome, Error>)
        ensures
            answers(r, self@.buy(*who, pool_id, asset_id, amount, *balances)),
    {
        let pool: Pool = match self.get_pool(pool_id) {
            Ok(pool) => pool,
            Err(e) => {
                return Err(e);
            },
        };
        if !pool.pair.contains(asset_id) {
            return Err(Error::InvalidAsset);
        }
        let pair: CurrencyPair = if asset_id == pool.pair.token_a {
            pool.pair
        } else {
            pool.pair.swap()
        };
        let reserve_in: Balance = balances.reserve_of(&pool.pair, pair.token_b);
        let reserve_out: Balance = balances.reserve_of(&pool.pair, pair.token_a);
        match get_amount_in(amount, reserve_in, reserve_out, pool.fee) {
            Ok(sell_amount) => self.swap(who, pool_id, pair, sell_amount, balances),
            Err(e) => Err(e),
        }
    }

    /// Sells `amount` of `asset_id` to pool `pool_id` for the other asset.
    pub fn sell(
        &self,
        who: &AccountId,
        pool_id: PoolId,
        asset_id: CurrencyId,
        amount: Balance,
        balances: &Balances,
    ) -> (r: Result<Outcome, Error>)
        ensures
            answers(r, self@.sell(*who, pool_id, asset_id, amount, *balances)),
    {
        let pool: Pool = match self.get_pool(pool_id) {
            Ok(pool) => pool,
            Err(e) => {
                return Err(e);
            },
        };
        if !pool.pair.contains(asset_id) {
            return Err(Error::InvalidAsset);
        }
        let pair: CurrencyPair = if asset_id == pool.pair.token_a {
            pool.pair.swap()
        } else {
            pool.pair
        };
        self.swap(who, pool_id, pair, amount, balances)
    }

    /// Adds liquidity to pool `pool_id`. The caller names `amount` of one
    /// `asset` of the pool; what is due of the other asset keeps the ratio of
    /// the reserves.
    pub fn add_liquidity(
        &self,
        who: &AccountId,
        pool_id: PoolId,
        amount: Balance,
        asset: CurrencyId,
        balances: &Balances,
    ) -> (r: Result<Outcome, Error>)
        ensures
            answers(r, self@.add_liquidity(*who, pool_id, amount, asset, *balances)),
    {
        let entry: PoolEntry = match self.find(pool_id) {
            Some(entry) => entry,
            None => {
                return Err(Error::PoolNotFound);
            },
        };
        let pool: Pool = entry.pool;
        let (amount_a, amount_b) = match deposit_amounts(
            &pool.pair,
            asset,
            amount,
            balances.reserve_a,
            balances.reserve_b,
        ) {
            Ok(amounts) => amounts,
            Err(e) => {
                return Err(e);
            },
        };
        if balances.user_a < amount_a {
            return Err(Error::InsufficientBalance);
        }
        if balances.user_b < amount_b {
            return Err(Error::InsufficientBalance);
        }
        let minted_lp: Balance = match liquidity_to_mint(
            amount_a,
            amount_b,
            balances.reserve_a,
            balances.reserve_b,
            balances.total_issuance,
        ) {
            Ok(minted) => minted,
            Err(e) => {
                return Err(e);
            },
        };
        let mut instructions: Vec<Instruction> = Vec::new();
        instructions.push(
            Instruction::Transfer {
                asset: pool.pair.token_a,
                from: *who,
                to: entry.account,
                amount: amount_a,
            },
        );
        instructions.push(
            Instruction::Transfer {
                asset: pool.pair.token_b,
                from: *who,
                to: entry.account,
                amount: amount_b,
            },
        );
        instructions.push(Instruction::Deposit { asset: pool.lp_token, who: *who, amount: minted_lp });
        let outcome: Outcome = Outcome {
            instructions,
            event: Event::LiquidityAdded { who: *who, pool_id, amount_a, amount_b, minted_lp },
        };
        proof {
            let specified = self@.add_liquidity(*who, pool_id, amount, asset, *balances);
            assert(specified is Ok);
            assert(outcome@.instructions =~= specified->Ok_0.instructions);
        }
        Ok(outcome)
    }

    /// Removes liquidity from pool `pool_id` by burning `lp_amount` of its
    /// liquidity tokens.
    pub fn remove_liquidity(
        &self,
        who: &AccountId,
        pool_id: PoolId,
        lp_amount: Balance,
        balances: &Balances,
    ) -> (r: Result<Outcome, Error>)
        ensures
            answers(r, self@.remove_liquidity(*who, pool_id, lp_amount, *balances)),
    {
        let entry: PoolEntry = match self.find(pool_id) {
            Some(entry) => entry,
            None => {
                return Err(Error::PoolNotFound);
            },
        };
        let pool: Pool = entry.pool;
        if balances.total_issuance == 0 {
            return Err(Error::WithdrawWithoutSupply);
        }
        if balances.user_lp < lp_amount {
            return Err(Error::InsufficientLiquidityBalance);
        }
        let (amount_a, amount_b) = match withdrawal_amounts(
            lp_amount,
            balances.reserve_a,
            balances.reserve_b,
            balances.total_issuance,
        ) {
            Ok(amounts) => amounts,
            Err(e) => {
                return Err(e);
            },
        };
        let mut instructions: Vec<Instruction> = Vec::new();
        instructions.push(
            Instruction::Transfer {
                asset: pool.pair.token_a,
                from: entry.account,
                to: *who,
                amount: amount_a,
            },
        );
        instructions.push(
            Instruction::Transfer {
                asset: pool.pair.token_b,
                from: entry.account,
                to: *who,
                amount: amount_b,
            },
        );
        instructions.push(Instruction::Withdraw { asset: pool.lp_token, who: *who, amount: lp_amount });
        let outcome: Outcome = Outcome {
            instructions,
            event: Event::LiquidityRemoved {
                who: *who,
                pool_id,
                amount_a,
                amount_b,
                total_issuance: balances.total_issuance.saturating_sub(lp_amount),
            },
        };
        proof {
            let specified = self@.remove_liquidity(*who, pool_id, lp_amount, *balances);
            assert(specified is Ok);
            assert(outcome@.instructions =~= specified->Ok_0.instructions);
        }
        Ok(outcome)
    }

    /// Swaps `amount_b` of `pair.token_b` for `pair.token_a` in pool
    /// `pool_id`. The order of the pair says which asset is sold.
    pub fn swap(
        &self,
        who: &AccountId,
        pool_id: PoolId,
        pair: CurrencyPair,
        amount_b: Balance,
        balances: &Balances,
    ) -> (r: Result<Outcome, Error>)
        ensures
            answers(r, self@.swap(*who, pool_id, pair, amount_b, *balances)),
    {
        let entry: PoolEntry = match self.find(pool_id) {
            Some(entry) => entry,
            None => {
                return Err(Error::PoolNotFound);
            },
        };
        let pool: Pool = entry.pool;
        if pair != pool.pair {
            return Err(Error::PairMismatch);
        }
        let reserve_b: Balance = balances.reserve_of(&pool.pair, pair.token_b);
        let reserve_a: Balance = balances.reserve_of(&pool.pair, pair.token_a);
        let amount_a: Balance = match get_amount_out(amount_b, reserve_b, reserve_a, pool.fee) {
            Ok(amount) => amount,
            Err(e) => {
                return Err(e);
            },
        };
        if amount_a == 0 {
            return Err(Error::InvalidAmount);
        }
        let mut instructions: Vec<Instruction> = Vec::new();
        instructions.push(
            Instruction::Transfer {
                asset: pair.token_b,
                from: *who,
                to: entry.account,
                amount: amount_b,
            },
        );
        instructions.push(
            Instruction::Transfer {
                asset: pair.token_a,
                from: entry.account,
                to: *who,
                amount: amount_a,
            },
        );
        let outcome: Outcome = Outcome {
            instructions,
            event: Event::Swapped {
                who: *who,
                pool_id,
                token_a: pair.token_a,
                token_b: pair.token_b,
                amount_a,
                amount_b,
                fee: pool.fee,
            },
        };
        proof {
            let specified = self@.swap(*who, pool_id, pair, amount_b, *balances);
            assert(specified is Ok);
            assert(outcome@.instructions =~= specified->Ok_0.instructions);
        }
        Ok(outcome)
    }
}

/// Filing a pool under the next id makes that pool known and leaves every
/// other pool as it was.
pub proof fn lemma_entries_after_create(before: PalletView, after: PalletView)
    requires
        before.wf(),
        after.wf(),
        after.entries.len() == before.entries.len() + 1,
        after.entries.drop_last() == before.entries,
        after.entries.last().pool_id == before.pool_count,
    ensures
        after.entry(before.pool_count) == Some(after.entries.last()),
        forall|other: PoolId|
            other != before.pool_count ==> after.entry(other) == before.entry(other),
{
    let last = after.entries.len() - 1;
    after.lemma_entry_at(last);
    assert forall|other: PoolId| other != before.pool_count implies after.entry(other)
        == before.entry(other) by {
        if exists|index: int| before.holds_at(index, other) {
            let index = choose|index: int| before.holds_at(index, other);
            assert(before.entries[index] == after.entries.drop_last()[index]);
            before.lemma_entry_at(index);
            after.lemma_entry_at(index);
        } else {
            if exists|index: int| after.holds_at(index, other) {
                let index = choose|index: int| after.holds_at(index, other);
                assert(index < last);
                assert(after.entries.drop_last()[index] == after.entries[index]);
                assert(before.holds_at(index, other));
            }
        }
    }
}

} // verus!
