//! What holds of the exchange as a whole: of its operations one after the
//! other, and of their effect on a ledger that carries them out.

use vstd::prelude::*;
use crate::calc::{
    lemma_amount_out_bounded, lemma_constant_product, lemma_constant_product_in_full,
    lemma_round_trip_from_output, spec_amount_in, spec_amount_out, spec_fee_multiplier,
};
use crate::currency::CurrencyId;
use crate::ledger::{
    lemma_apply_all_leaves_issuance, lemma_apply_all_leaves_others, lemma_apply_changes,
    lemma_apply_issues, lemma_apply_three, lemma_apply_two, Balances, LedgerModel,
};
use crate::liquidity::{lemma_deposit_then_withdraw, lemma_sole_provider_withdraws_all};
use crate::math::spec_checked_mul_div;
use crate::pallet::{spec_sub_account, Event, OutcomeView, PalletView};
use crate::traits::CurrencyPair;
use crate::types::{AccountId, Balance, PoolId};

verus! {

impl Event {
    /// The pool that the event is about.
    pub open spec fn pool_id(self) -> PoolId {
        match self {
            Event::PoolCreated { pool_id, .. } => pool_id,
            Event::LiquidityAdded { pool_id, .. } => pool_id,
            Event::LiquidityRemoved { pool_id, .. } => pool_id,
            Event::Swapped { pool_id, .. } => pool_id,
        }
    }
}

impl PalletView {
    /// Whether an outcome stays within pool `pool_id` and its caller: every
    /// instruction moves an asset of the pool between the caller and the
    /// custody account of the pool, or mints or burns the liquidity token of
    /// the pool for the caller; and the event is about the pool.
    pub open spec fn confined(self, outcome: OutcomeView, who: AccountId, pool_id: PoolId) -> bool {
        &&& self.entry(pool_id) matches Some(entry) && forall|i: int|
            0 <= i < outcome.instructions.len() ==> {
                let instruction = #[trigger] outcome.instructions[i];
                &&& instruction.stays_between(who, entry.account)
                &&& if instruction.is_transfer() {
                    entry.pool.pair.spec_contains(instruction.asset())
                } else {
                    instruction.asset() == entry.pool.lp_token
                }
            }
        &&& outcome.event.pool_id() == pool_id
    }
}

/// Different pools have different custody accounts.
pub proof fn lemma_custody_accounts_differ(view: PalletView, pool_id: PoolId, other: PoolId)
    requires
        view.wf(),
        pool_id != other,
    ensures
        view.entry(pool_id) is Some && view.entry(other) is Some ==> view.entry(pool_id)->0.account
            != view.entry(other)->0.account,
{
    view.lemma_entry_is_derived(pool_id);
    view.lemma_entry_is_derived(other);
    if view.entry(pool_id) is Some && view.entry(other) is Some {
        let first = view.entry(pool_id)->0;
        let second = view.entry(other)->0;
        lemma_sub_account_names_the_pool(view.pallet_id@, pool_id);
        lemma_sub_account_names_the_pool(view.pallet_id@, other);
        vstd::bytes::lemma_auto_spec_u128_to_from_le_bytes();
        if first.account == second.account {
            assert(vstd::bytes::spec_u128_to_le_bytes(pool_id) == vstd::bytes::spec_u128_to_le_bytes(
                other,
            ));
            assert(vstd::bytes::spec_u128_from_le_bytes(vstd::bytes::spec_u128_to_le_bytes(pool_id))
                == pool_id);
            assert(vstd::bytes::spec_u128_from_le_bytes(vstd::bytes::spec_u128_to_le_bytes(other))
                == other);
        }
    }
}

/// The bytes 12 to 27 of a custody account are the bytes of the pool id.
proof fn lemma_sub_account_names_the_pool(pallet_id: Seq<u8>, pool_id: PoolId)
    requires
        pallet_id.len() == 8,
    ensures
        spec_sub_account(pallet_id, pool_id).subrange(12, 28) == vstd::bytes::spec_u128_to_le_bytes(
            pool_id,
        ),
{
    vstd::bytes::lemma_auto_spec_u128_to_from_le_bytes();
    let bytes = vstd::bytes::spec_u128_to_le_bytes(pool_id);
    assert(bytes.len() == 16);
    assert(spec_sub_account(pallet_id, pool_id).subrange(12, 28) =~= bytes);
}

/// The constant product does not fall in a swap. With `reserve_in` and
/// `reserve_out` the reserves of the asset sold and the asset bought, a swap
/// that is not refused pays out `amount_a` with `(reserve_in + amount_b) *
/// (reserve_out - amount_a) >= reserve_in * reserve_out`, and more than that
/// where the fee is a thousandth or above. This holds wherever `reserve_in *
/// 1000 + amount_b * m` fits a balance, with `m` the fee multiplier; where it
/// does not, the product is kept if and only if `amount_b * (reserve_out - 1)`
/// is at least `reserve_in`.
pub proof fn lemma_swap_keeps_constant_product(
    view: PalletView,
    who: AccountId,
    pool_id: PoolId,
    pair: CurrencyPair,
    amount_b: Balance,
    balances: Balances,
)
    requires
        view.swap(who, pool_id, pair, amount_b, balances) is Ok,
    ensures
        ({
            let pool = view.entry(pool_id)->0.pool;
            let reserve_in = balances.spec_reserve_of(pool.pair, pair.token_b);
            let reserve_out = balances.spec_reserve_of(pool.pair, pair.token_a);
            let amount_a = spec_amount_out(amount_b, reserve_in, reserve_out, pool.fee);
            let clamped = reserve_in * 1000 + amount_b * spec_fee_multiplier(pool.fee) > u128::MAX;
            &&& view.swap(who, pool_id, pair, amount_b, balances)->Ok_0.event == (Event::Swapped {
                who,
                pool_id,
                token_a: pair.token_a,
                token_b: pair.token_b,
                amount_a,
                amount_b,
                fee: pool.fee,
            })
            &&& 0 < amount_a <= reserve_out
            &&& !clamped ==> amount_a < reserve_out
            &&& (reserve_in + amount_b) * (reserve_out - amount_a) >= reserve_in * reserve_out
                <==> !(clamped && amount_b * (reserve_out - 1) < reserve_in)
            &&& !clamped && pool.fee.parts() >= 1000 ==> (reserve_in + amount_b) * (reserve_out
                - amount_a) > reserve_in * reserve_out
        }),
{
    let pool = view.entry(pool_id)->0.pool;
    let reserve_in = balances.spec_reserve_of(pool.pair, pair.token_b);
    let reserve_out = balances.spec_reserve_of(pool.pair, pair.token_a);
    lemma_constant_product_in_full(amount_b, reserve_in, reserve_out, pool.fee);
    if reserve_in * 1000 + amount_b * spec_fee_multiplier(pool.fee) <= u128::MAX {
        lemma_constant_product(amount_b, reserve_in, reserve_out, pool.fee);
    }
}

/// A purchase delivers what was asked for: a `buy` of `amount` of `asset_id`
/// that is not refused pays out at least `amount` of `asset_id`. This holds
/// wherever neither `reserve_in * amount * 1000` nor `sell_amount * m *
/// reserve_out` exceeds a balance, with `reserve_in` the reserve of the asset
/// paid in, `reserve_out` that of `asset_id`, `sell_amount` the amount paid
/// in and `m` the fee multiplier.
pub proof fn lemma_buy_delivers(
    view: PalletView,
    who: AccountId,
    pool_id: PoolId,
    asset_id: CurrencyId,
    amount: Balance,
    balances: Balances,
)
    requires
        view.buy(who, pool_id, asset_id, amount, balances) is Ok,
        ({
            let pool = view.entry(pool_id)->0.pool;
            let pair = PalletView::pair_with_first(pool.pair, asset_id);
            let reserve_in = balances.spec_reserve_of(pool.pair, pair.token_b);
            let reserve_out = balances.spec_reserve_of(pool.pair, pair.token_a);
            &&& reserve_in * amount * 1000 <= u128::MAX
            &&& spec_amount_in(amount, reserve_in, reserve_out, pool.fee) * spec_fee_multiplier(
                pool.fee,
            ) * reserve_out <= u128::MAX
        }),
    ensures
        view.buy(who, pool_id, asset_id, amount, balances)->Ok_0.event matches Event::Swapped {
            token_a,
            amount_a,
            ..
        } && token_a == asset_id && amount_a >= amount,
{
    let pool = view.entry(pool_id)->0.pool;
    let pair = PalletView::pair_with_first(pool.pair, asset_id);
    let reserve_in = balances.spec_reserve_of(pool.pair, pair.token_b);
    let reserve_out = balances.spec_reserve_of(pool.pair, pair.token_a);
    let sell_amount = spec_amount_in(amount, reserve_in, reserve_out, pool.fee);
    assert(view.swap(who, pool_id, pair, sell_amount, balances) is Ok);
    assert(sell_amount > 0);
    lemma_round_trip_from_output(amount, reserve_in, reserve_out, pool.fee);
}

/// Every operation on a pool stays within that pool and its caller.
pub proof fn lemma_operations_are_confined(
    view: PalletView,
    who: AccountId,
    pool_id: PoolId,
    pair: CurrencyPair,
    asset: CurrencyId,
    amount: Balance,
    balances: Balances,
)
    ensures
        view.add_liquidity(who, pool_id, amount, asset, balances) matches Ok(outcome)
            ==> view.confined(outcome, who, pool_id),
        view.remove_liquidity(who, pool_id, amount, balances) matches Ok(outcome) ==> view.confined(
            outcome,
            who,
            pool_id,
        ),
        view.swap(who, pool_id, pair, amount, balances) matches Ok(outcome) ==> view.confined(
            outcome,
            who,
            pool_id,
        ),
        view.buy(who, pool_id, asset, amount, balances) matches Ok(outcome) ==> view.confined(
            outcome,
            who,
            pool_id,
        ),
        view.sell(who, pool_id, asset, amount, balances) matches Ok(outcome) ==> view.confined(
            outcome,
            who,
            pool_id,
        ),
{
}

/// Pools are isolated from each other. What a ledger carries out for an
/// operation on one pool changes no balance of the custody account of
/// another pool, provided the caller is not that account, and no issuance of
/// the liquidity token of another pool, provided the two pools do not share
/// their liquidity token; and the event is about the one pool.
pub proof fn lemma_pool_isolation(
    view: PalletView,
    ledger: LedgerModel,
    outcome: OutcomeView,
    who: AccountId,
    pool_id: PoolId,
    other: PoolId,
    asset: CurrencyId,
)
    requires
        view.wf(),
        view.confined(outcome, who, pool_id),
        other != pool_id,
        view.entry(other) is Some,
        who != view.entry(other)->0.account,
        ledger.apply_all(outcome.instructions) is Some,
    ensures
        ({
            let after = ledger.apply_all(outcome.instructions)->0;
            let this_pool = view.entry(pool_id)->0;
            let other_pool = view.entry(other)->0;
            &&& after.free_balance(asset, other_pool.account) == ledger.free_balance(
                asset,
                other_pool.account,
            )
            &&& other_pool.pool.lp_token != this_pool.pool.lp_token ==> after.total_issuance(
                other_pool.pool.lp_token,
            ) == ledger.total_issuance(other_pool.pool.lp_token)
            &&& outcome.event.pool_id() != other
        }),
{
    let this_pool = view.entry(pool_id)->0;
    let other_pool = view.entry(other)->0;
    lemma_custody_accounts_differ(view, pool_id, other);
    lemma_apply_all_leaves_others(
        ledger,
        outcome.instructions,
        who,
        this_pool.account,
        asset,
        other_pool.account,
    );
    if other_pool.pool.lp_token != this_pool.pool.lp_token {
        lemma_apply_all_leaves_issuance(ledger, outcome.instructions, other_pool.pool.lp_token);
    }
}


impl Balances {
    /// The balances after a deposit of `(amount_a, amount_b)` by the caller
    /// that minted `minted_lp`, with nothing else done.
    pub open spec fn after_deposit(self, amount_a: Balance, amount_b: Balance, minted_lp: Balance) -> Balances {
        Balances {
            reserve_a: (self.reserve_a + amount_a) as u128,
            reserve_b: (self.reserve_b + amount_b) as u128,
            total_issuance: (self.total_issuance + minted_lp) as u128,
            user_a: (self.user_a - amount_a) as u128,
            user_b: (self.user_b - amount_b) as u128,
            user_lp: (self.user_lp + minted_lp) as u128,
        }
    }
}

/// The balances after a deposit are what the ledger reports once it has
/// carried the deposit out. This holds for a pool of two different assets
/// whose liquidity token is neither of them, a caller other than its custody
/// account, and balances that still fit.
pub proof fn lemma_ledger_after_deposit(
    view: PalletView,
    ledger: LedgerModel,
    who: AccountId,
    pool_id: PoolId,
    amount: Balance,
    asset: CurrencyId,
    balances: Balances,
)
    requires
        view.entry(pool_id) matches Some(entry) && {
            &&& entry.pool.pair.token_a != entry.pool.pair.token_b
            &&& !entry.pool.pair.spec_contains(entry.pool.lp_token)
            &&& who != entry.account
            &&& ledger.reports(entry.pool.pair, entry.pool.lp_token, entry.account, who, balances)
        },
        view.add_liquidity(who, pool_id, amount, asset, balances) matches Ok(added)
            && added.event matches Event::LiquidityAdded { amount_a, amount_b, minted_lp, .. } && {
            &&& balances.reserve_a + amount_a <= u128::MAX
            &&& balances.reserve_b + amount_b <= u128::MAX
            &&& balances.total_issuance + minted_lp <= u128::MAX
            &&& balances.user_lp + minted_lp <= u128::MAX
        },
    ensures
        ({
            let entry = view.entry(pool_id)->0;
            let added = view.add_liquidity(who, pool_id, amount, asset, balances)->Ok_0;
            let amount_a = added.event->LiquidityAdded_amount_a;
            let amount_b = added.event->LiquidityAdded_amount_b;
            let minted_lp = added.event->LiquidityAdded_minted_lp;
            ledger.apply_all(added.instructions) matches Some(after) && after.reports(
                entry.pool.pair,
                entry.pool.lp_token,
                entry.account,
                who,
                balances.after_deposit(amount_a, amount_b, minted_lp),
            )
        }),
{
    let entry = view.entry(pool_id)->0;
    let token_a = entry.pool.pair.token_a;
    let token_b = entry.pool.pair.token_b;
    let lp_token = entry.pool.lp_token;
    let custody = entry.account;
    let added = view.add_liquidity(who, pool_id, amount, asset, balances)->Ok_0;
    let first = added.instructions[0];
    let second = added.instructions[1];
    let third = added.instructions[2];
    assert(added.instructions =~= seq![first, second, third]);
    lemma_apply_three(ledger, first, second, third);
    let one = ledger.apply(first)->0;
    lemma_apply_changes(ledger, first, token_a, who);
    lemma_apply_changes(ledger, first, token_b, who);
    lemma_apply_changes(ledger, first, lp_token, who);
    lemma_apply_changes(ledger, first, token_a, custody);
    lemma_apply_changes(ledger, first, token_b, custody);
    lemma_apply_issues(ledger, first, lp_token);
    lemma_apply_two(one, second, third);
    let two = one.apply(second)->0;
    lemma_apply_changes(one, second, token_a, who);
    lemma_apply_changes(one, second, token_b, who);
    lemma_apply_changes(one, second, lp_token, who);
    lemma_apply_changes(one, second, token_a, custody);
    lemma_apply_changes(one, second, token_b, custody);
    lemma_apply_issues(one, second, lp_token);
    lemma_apply_changes(two, third, token_a, who);
    lemma_apply_changes(two, third, token_b, who);
    lemma_apply_changes(two, third, lp_token, who);
    lemma_apply_changes(two, third, token_a, custody);
    lemma_apply_changes(two, third, token_b, custody);
    lemma_apply_issues(two, third, lp_token);
}

/// Liquidity is conserved. A caller adds liquidity and, with nothing else
/// done in between, removes all that was minted for it. Where the removal is
/// not refused, it pays out both reserves whole if no liquidity token was in
/// issue before, which for a pool with empty reserves is exactly what was
/// deposited. Else it pays out no more than was deposited of either asset,
/// and all of a deposited amount exactly where `minted * reserve` equals
/// `amount * total_issuance`. This holds wherever the balances after the
/// deposit fit a balance.
pub proof fn lemma_liquidity_is_conserved(
    view: PalletView,
    who: AccountId,
    pool_id: PoolId,
    amount: Balance,
    asset: CurrencyId,
    balances: Balances,
)
    requires
        view.add_liquidity(who, pool_id, amount, asset, balances) matches Ok(added)
            && added.event matches Event::LiquidityAdded { amount_a, amount_b, minted_lp, .. } && {
            &&& balances.reserve_a + amount_a <= u128::MAX
            &&& balances.reserve_b + amount_b <= u128::MAX
            &&& balances.total_issuance + minted_lp <= u128::MAX
            &&& balances.user_lp + minted_lp <= u128::MAX
        },
    ensures
        ({
            let added = view.add_liquidity(who, pool_id, amount, asset, balances)->Ok_0.event;
            let amount_a = added->LiquidityAdded_amount_a;
            let amount_b = added->LiquidityAdded_amount_b;
            let minted_lp = added->LiquidityAdded_minted_lp;
            let later = balances.after_deposit(amount_a, amount_b, minted_lp);
            view.remove_liquidity(who, pool_id, minted_lp, later) matches Ok(removed) ==> {
                &&& removed.event matches Event::LiquidityRemoved {
                    amount_a: paid_a,
                    amount_b: paid_b,
                    total_issuance,
                    ..
                } && {
                    &&& total_issuance == balances.total_issuance
                    &&& if balances.total_issuance == 0 {
                        paid_a == balances.reserve_a + amount_a && paid_b == balances.reserve_b
                            + amount_b
                    } else {
                        &&& paid_a <= amount_a
                        &&& paid_b <= amount_b
                        &&& (paid_a == amount_a <==> minted_lp * balances.reserve_a == amount_a
                            * balances.total_issuance)
                        &&& (paid_b == amount_b <==> minted_lp * balances.reserve_b == amount_b
                            * balances.total_issuance)
                    }
                }
            }
        }),
{
    let added = view.add_liquidity(who, pool_id, amount, asset, balances)->Ok_0.event;
    let amount_a = added->LiquidityAdded_amount_a;
    let amount_b = added->LiquidityAdded_amount_b;
    let minted_lp = added->LiquidityAdded_minted_lp;
    if balances.total_issuance == 0 {
        lemma_sole_provider_withdraws_all(amount_a, amount_b, balances.reserve_a, balances.reserve_b);
    } else {
        lemma_deposit_then_withdraw(
            amount_a,
            amount_b,
            balances.reserve_a,
            balances.reserve_b,
            balances.total_issuance,
            minted_lp,
        );
    }
}

/// What an operation takes from an account is covered by what the ledger
/// reported of it. A deposit takes no more of either asset than the caller
/// holds. A removal burns no more liquidity tokens than the caller holds,
/// and, where it burns no more than are in issue, pays out no more than the
/// reserves. A swap pays out no more than the reserve of the asset bought.
pub proof fn lemma_debits_are_covered(
    view: PalletView,
    who: AccountId,
    pool_id: PoolId,
    pair: CurrencyPair,
    asset: CurrencyId,
    amount: Balance,
    balances: Balances,
)
    ensures
        view.add_liquidity(who, pool_id, amount, asset, balances) matches Ok(outcome)
            ==> outcome.event matches Event::LiquidityAdded { amount_a, amount_b, .. } && amount_a
            <= balances.user_a && amount_b <= balances.user_b,
        view.remove_liquidity(who, pool_id, amount, balances) matches Ok(outcome)
            ==> outcome.event matches Event::LiquidityRemoved { amount_a, amount_b, .. } && {
            &&& amount <= balances.user_lp
            &&& amount <= balances.total_issuance ==> amount_a <= balances.reserve_a && amount_b
                <= balances.reserve_b
        },
        view.swap(who, pool_id, pair, amount, balances) matches Ok(outcome)
            ==> outcome.event matches Event::Swapped { amount_a, .. } && amount_a
            <= balances.spec_reserve_of(view.entry(pool_id)->0.pool.pair, pair.token_a),
{
    if view.remove_liquidity(who, pool_id, amount, balances) is Ok && amount
        <= balances.total_issuance {
        lemma_share_of_reserve(amount, balances.reserve_a, balances.total_issuance);
        lemma_share_of_reserve(amount, balances.reserve_b, balances.total_issuance);
    }
    if view.swap(who, pool_id, pair, amount, balances) is Ok {
        let pool = view.entry(pool_id)->0.pool;
        lemma_amount_out_bounded(
            amount,
            balances.spec_reserve_of(pool.pair, pair.token_b),
            balances.spec_reserve_of(pool.pair, pair.token_a),
            pool.fee,
        );
    }
}

/// A share of a reserve is no more than the reserve.
proof fn lemma_share_of_reserve(lp_amount: Balance, reserve: Balance, total_issuance: Balance)
    requires
        0 < total_issuance,
        lp_amount <= total_issuance,
    ensures
        spec_checked_mul_div(lp_amount, reserve, total_issuance) matches Some(paid) ==> paid <= reserve,
{
    if spec_checked_mul_div(lp_amount, reserve, total_issuance) is Some {
        let n = lp_amount * reserve;
        let d = total_issuance as int;
        assert(0 <= n <= reserve * d) by (nonlinear_arith)
            requires
                n == lp_amount * reserve,
                0 <= lp_amount <= d,
                0 <= reserve,
        ;
        vstd::arithmetic::div_mod::lemma_fundamental_div_mod(n, d);
        vstd::arithmetic::div_mod::lemma_mod_bound(n, d);
        let q = n / d;
        if q > reserve {
            assert(d * q >= d * (reserve + 1)) by (nonlinear_arith)
                requires
                    q >= reserve + 1,
                    d > 0,
            ;
            assert(d * (reserve + 1) == reserve * d + d) by (nonlinear_arith);
        }
    }
}

/// A ledger carries out what the exchange decides. With the ledger
/// reporting `balances` of a pool of two different assets: the instructions
/// of a deposit are carried out; those of a removal are, where it burns no
/// more liquidity tokens than are in issue; and those of a swap are, where
/// the caller holds the amount to be sold.
pub proof fn lemma_outcomes_are_carried_out(
    view: PalletView,
    ledger: LedgerModel,
    who: AccountId,
    pool_id: PoolId,
    pair: CurrencyPair,
    asset: CurrencyId,
    amount: Balance,
    balances: Balances,
)
    requires
        view.entry(pool_id) matches Some(entry) && {
            &&& entry.pool.pair.token_a != entry.pool.pair.token_b
            &&& ledger.reports(entry.pool.pair, entry.pool.lp_token, entry.account, who, balances)
        },
    ensures
        view.add_liquidity(who, pool_id, amount, asset, balances) matches Ok(outcome)
            ==> ledger.apply_all(outcome.instructions) is Some,
        view.remove_liquidity(who, pool_id, amount, balances) matches Ok(outcome) ==> (amount
            <= balances.total_issuance ==> ledger.apply_all(outcome.instructions) is Some),
        view.swap(who, pool_id, pair, amount, balances) matches Ok(outcome) ==> (
        ledger.free_balance(pair.token_b, who) >= amount ==> ledger.apply_all(outcome.instructions)
            is Some),
{
    let entry = view.entry(pool_id)->0;
    let token_a = entry.pool.pair.token_a;
    let token_b = entry.pool.pair.token_b;
    let lp_token = entry.pool.lp_token;
    let custody = entry.account;
    lemma_debits_are_covered(view, who, pool_id, pair, asset, amount, balances);
    if let Ok(outcome) = view.add_liquidity(who, pool_id, amount, asset, balances) {
        let first = outcome.instructions[0];
        let second = outcome.instructions[1];
        let third = outcome.instructions[2];
        assert(outcome.instructions =~= seq![first, second, third]);
        lemma_apply_three(ledger, first, second, third);
        let one = ledger.apply(first)->0;
        lemma_apply_changes(ledger, first, token_b, who);
        lemma_apply_two(one, second, third);
    }
    if let Ok(outcome) = view.remove_liquidity(who, pool_id, amount, balances) {
        if amount <= balances.total_issuance {
            let first = outcome.instructions[0];
            let second = outcome.instructions[1];
            let third = outcome.instructions[2];
            assert(outcome.instructions =~= seq![first, second, third]);
            lemma_apply_three(ledger, first, second, third);
            let one = ledger.apply(first)->0;
            lemma_apply_changes(ledger, first, token_b, custody);
            lemma_apply_changes(ledger, first, lp_token, who);
            lemma_apply_two(one, second, third);
            let two = one.apply(second)->0;
            lemma_apply_changes(one, second, lp_token, who);
        }
    }
    if let Ok(outcome) = view.swap(who, pool_id, pair, amount, balances) {
        if ledger.free_balance(pair.token_b, who) >= amount {
            let first = outcome.instructions[0];
            let second = outcome.instructions[1];
            assert(outcome.instructions =~= seq![first, second]);
            lemma_apply_two(ledger, first, second);
            lemma_apply_changes(ledger, first, pair.token_a, custody);
        }
    }
}


/// The constant product of a pool does not fall when a ledger carries out a
/// swap: the product of the two reserves that the ledger holds for the pool
/// is afterwards at least what it was, and more where the fee is a
/// thousandth or above. This holds for a pool of two different assets and a
/// caller other than its custody account, wherever `reserve_in * 1000 +
/// amount_b * m` fits a balance, with `reserve_in` the reserve of the asset
/// sold and `m` the fee multiplier.
pub proof fn lemma_swap_grows_reserves(
    view: PalletView,
    ledger: LedgerModel,
    who: AccountId,
    pool_id: PoolId,
    pair: CurrencyPair,
    amount_b: Balance,
    balances: Balances,
)
    requires
        view.entry(pool_id) matches Some(entry) && {
            &&& entry.pool.pair.token_a != entry.pool.pair.token_b
            &&& who != entry.account
            &&& ledger.reports(entry.pool.pair, entry.pool.lp_token, entry.account, who, balances)
            &&& balances.spec_reserve_of(entry.pool.pair, pair.token_b) * 1000 + amount_b
                * spec_fee_multiplier(entry.pool.fee) <= u128::MAX
        },
        view.swap(who, pool_id, pair, amount_b, balances) matches Ok(outcome) && ledger.apply_all(
            outcome.instructions,
        ) is Some,
    ensures
        ({
            let entry = view.entry(pool_id)->0;
            let outcome = view.swap(who, pool_id, pair, amount_b, balances)->Ok_0;
            let after = ledger.apply_all(outcome.instructions)->0;
            let before_product = ledger.free_balance(entry.pool.pair.token_a, entry.account)
                * ledger.free_balance(entry.pool.pair.token_b, entry.account);
            let after_product = after.free_balance(entry.pool.pair.token_a, entry.account)
                * after.free_balance(entry.pool.pair.token_b, entry.account);
            &&& after_product >= before_product
            &&& entry.pool.fee.parts() >= 1000 ==> after_product > before_product
        }),
{
    let entry = view.entry(pool_id)->0;
    let custody = entry.account;
    let outcome = view.swap(who, pool_id, pair, amount_b, balances)->Ok_0;
    let after = ledger.apply_all(outcome.instructions)->0;
    let reserve_in = balances.spec_reserve_of(entry.pool.pair, pair.token_b) as int;
    let reserve_out = balances.spec_reserve_of(entry.pool.pair, pair.token_a) as int;
    lemma_swap_keeps_constant_product(view, who, pool_id, pair, amount_b, balances);
    let amount_a = spec_amount_out(amount_b, reserve_in as u128, reserve_out as u128, entry.pool.fee) as int;
    let first = outcome.instructions[0];
    let second = outcome.instructions[1];
    assert(outcome.instructions =~= seq![first, second]);
    lemma_apply_two(ledger, first, second);
    let one = ledger.apply(first)->0;
    lemma_apply_changes(ledger, first, pair.token_a, custody);
    lemma_apply_changes(ledger, first, pair.token_b, custody);
    lemma_apply_changes(one, second, pair.token_a, custody);
    lemma_apply_changes(one, second, pair.token_b, custody);
    assert(after.free_balance(pair.token_b, custody) == reserve_in + amount_b);
    assert(after.free_balance(pair.token_a, custody) == reserve_out - amount_a);
    assert((reserve_out - amount_a) * (reserve_in + amount_b) == (reserve_in + amount_b) * (
    reserve_out - amount_a)) by (nonlinear_arith);
    assert(reserve_out * reserve_in == reserve_in * reserve_out) by (nonlinear_arith);
}


/// Creating a pool changes no answer about the pools that were there: every
/// such pool keeps its pair, its liquidity token, its custody account and its
/// reserves, and no operation on it is answered differently.
pub proof fn lemma_creation_leaves_pools_alone(
    before: PalletView,
    after: PalletView,
    who: AccountId,
    pool_id: PoolId,
    pair: CurrencyPair,
    asset: CurrencyId,
    amount: Balance,
    balances: Balances,
)
    requires
        before.wf(),
        after.wf(),
        after.entries.len() == before.entries.len() + 1,
        after.entries.drop_last() == before.entries,
        after.entries.last().pool_id == before.pool_count,
        before.pool_exists(pool_id),
    ensures
        after.entry(pool_id) == before.entry(pool_id),
        after.pool_exists(pool_id),
        after.currency_pair(pool_id) == before.currency_pair(pool_id),
        after.lp_token(pool_id) == before.lp_token(pool_id),
        after.pool_reserves(pool_id, balances) == before.pool_reserves(pool_id, balances),
        after.get_exchange_value(pool_id, asset, amount, balances) == before.get_exchange_value(
            pool_id,
            asset,
            amount,
            balances,
        ),
        after.add_liquidity(who, pool_id, amount, asset, balances) == before.add_liquidity(
            who,
            pool_id,
            amount,
            asset,
            balances,
        ),
        after.remove_liquidity(who, pool_id, amount, balances) == before.remove_liquidity(
            who,
            pool_id,
            amount,
            balances,
        ),
        after.swap(who, pool_id, pair, amount, balances) == before.swap(
            who,
            pool_id,
            pair,
            amount,
            balances,
        ),
        after.buy(who, pool_id, asset, amount, balances) == before.buy(
            who,
            pool_id,
            asset,
            amount,
            balances,
        ),
        after.sell(who, pool_id, asset, amount, balances) == before.sell(
            who,
            pool_id,
            asset,
            amount,
            balances,
        ),
{
    before.lemma_entry_is_derived(pool_id);
    crate::pallet::lemma_entries_after_create(before, after);
}


/// The queries are reads and nothing else: what they answer of a pool is
/// determined by the record of the pool and, for the reserves, by what the
/// ledger reported. As long as neither changes, they answer the same.
pub proof fn lemma_queries_are_determined(
    first: PalletView,
    second: PalletView,
    pool_id: PoolId,
    balances: Balances,
    later: Balances,
)
    requires
        first.entry(pool_id) == second.entry(pool_id),
        balances.reserve_a == later.reserve_a,
        balances.reserve_b == later.reserve_b,
    ensures
        first.pool_exists(pool_id) == second.pool_exists(pool_id),
        first.currency_pair(pool_id) == second.currency_pair(pool_id),
        first.lp_token(pool_id) == second.lp_token(pool_id),
        first.pool_reserves(pool_id, balances) == second.pool_reserves(pool_id, later),
{
}

} // verus!
