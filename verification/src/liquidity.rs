//! Liquidity accounting: what a deposit takes and mints, and what a
//! withdrawal pays out.

use vstd::prelude::*;
use crate::currency::CurrencyId;
use crate::error::Error;
use crate::math::{
    integer_sqrt, lemma_integer_sqrt_exists, checked_mul_div, saturating_mul, spec_integer_sqrt,
    spec_checked_mul_div, spec_saturating_mul,
};
use crate::traits::CurrencyPair;
use crate::types::Balance;

verus! {

/// The value of `amount` of `asset_id` in the other asset of the pair, at
/// the ratio of the reserves: `floor(amount * other_reserve / this_reserve)`.
/// `InvalidAsset` where the asset is not of the pair; `InvalidAmount` where
/// this reserve is empty or the product exceeds a balance.
pub open spec fn spec_exchange_value(
    pair: CurrencyPair,
    asset_id: CurrencyId,
    amount: Balance,
    reserve_a: Balance,
    reserve_b: Balance,
) -> Result<Balance, Error> {
    if pair.token_a == asset_id {
        match spec_checked_mul_div(amount, reserve_b, reserve_a) {
            Some(quote) => Ok(quote),
            None => Err(Error::InvalidAmount),
        }
    } else if pair.token_b == asset_id {
        match spec_checked_mul_div(amount, reserve_a, reserve_b) {
            Some(quote) => Ok(quote),
            None => Err(Error::InvalidAmount),
        }
    } else {
        Err(Error::InvalidAsset)
    }
}

/// What a deposit of `amount` of `asset` takes of the two assets, as
/// `(amount_a, amount_b)`. Into a pool with two empty reserves it takes
/// `amount` of each; else `amount` of `asset` and its exchange value of the
/// other asset.
pub open spec fn spec_deposit_amounts(
    pair: CurrencyPair,
    asset: CurrencyId,
    amount: Balance,
    reserve_a: Balance,
    reserve_b: Balance,
) -> Result<(Balance, Balance), Error> {
    if !pair.spec_contains(asset) {
        Err(Error::InvalidAsset)
    } else if reserve_a == 0 && reserve_b == 0 {
        Ok((amount, amount))
    } else if pair.token_a == asset {
        match spec_exchange_value(pair, asset, amount, reserve_a, reserve_b) {
            Ok(other_amount) => Ok((amount, other_amount)),
            Err(e) => Err(e),
        }
    } else {
        match spec_exchange_value(pair, asset, amount, reserve_a, reserve_b) {
            Ok(other_amount) => Ok((other_amount, amount)),
            Err(e) => Err(e),
        }
    }
}

/// Whether a deposit is priced as the first one: no liquidity token is in
/// issue, or both reserves are empty.
pub open spec fn is_first_deposit(reserve_a: Balance, reserve_b: Balance, total_issuance: Balance) -> bool {
    total_issuance == 0 || (reserve_a == 0 && reserve_b == 0)
}

/// The smaller of the two shares that a later deposit adds to the reserves,
/// in liquidity tokens: `min(floor(amount_a * total_issuance / reserve_a),
/// floor(amount_b * total_issuance / reserve_b))`, each product clamped to
/// the largest balance.
pub open spec fn spec_proportional_mint(
    amount_a: Balance,
    amount_b: Balance,
    reserve_a: Balance,
    reserve_b: Balance,
    total_issuance: Balance,
) -> Balance {
    let share_a = spec_saturating_mul(amount_a, total_issuance) / reserve_a;
    let share_b = spec_saturating_mul(amount_b, total_issuance) / reserve_b;
    if share_a <= share_b {
        share_a
    } else {
        share_b
    }
}

/// What a deposit of `(amount_a, amount_b)` mints. The first deposit mints
/// the floor of the square root of `amount_a * amount_b`, the product clamped
/// to the largest balance. A later one mints the proportional share, and is
/// refused with `InvalidAmount` where a reserve is empty.
pub open spec fn spec_liquidity_to_mint(
    amount_a: Balance,
    amount_b: Balance,
    reserve_a: Balance,
    reserve_b: Balance,
    total_issuance: Balance,
) -> Result<Balance, Error> {
    if is_first_deposit(reserve_a, reserve_b, total_issuance) {
        Ok(spec_integer_sqrt(spec_saturating_mul(amount_a, amount_b)))
    } else if reserve_a == 0 || reserve_b == 0 {
        Err(Error::InvalidAmount)
    } else {
        Ok(spec_proportional_mint(amount_a, amount_b, reserve_a, reserve_b, total_issuance))
    }
}

/// What burning `lp_amount` liquidity tokens pays out of the two reserves, as
/// `(amount_a, amount_b)`: `floor(lp_amount * reserve / total_issuance)` of
/// each. `WithdrawWithoutSupply` where no liquidity token is in issue;
/// `InvalidAmount` where a product exceeds a balance or an amount is zero.
pub open spec fn spec_withdrawal_amounts(
    lp_amount: Balance,
    reserve_a: Balance,
    reserve_b: Balance,
    total_issuance: Balance,
) -> Result<(Balance, Balance), Error> {
    if total_issuance == 0 {
        Err(Error::WithdrawWithoutSupply)
    } else {
        match (
            spec_checked_mul_div(lp_amount, reserve_a, total_issuance),
            spec_checked_mul_div(lp_amount, reserve_b, total_issuance),
        ) {
            (Some(amount_a), Some(amount_b)) => if amount_a == 0 || amount_b == 0 {
                Err(Error::InvalidAmount)
            } else {
                Ok((amount_a, amount_b))
            },
            _ => Err(Error::InvalidAmount),
        }
    }
}

/// The value of `amount` of `asset_id` in the other asset of the pair.
pub fn exchange_value(
    pair: &CurrencyPair,
    asset_id: CurrencyId,
    amount: Balance,
    reserve_a: Balance,
    reserve_b: Balance,
) -> (r: Result<Balance, Error>)
    ensures
        r == spec_exchange_value(*pair, asset_id, amount, reserve_a, reserve_b),
{
    let quote: Option<Balance> = if pair.token_a == asset_id {
        checked_mul_div(amount, reserve_b, reserve_a)
    } else if pair.token_b == asset_id {
        checked_mul_div(amount, reserve_a, reserve_b)
    } else {
        return Err(Error::InvalidAsset);
    };
    match quote {
        Some(value) => Ok(value),
        None => Err(Error::InvalidAmount),
    }
}

/// What a deposit of `amount` of `asset` takes of the two assets.
pub fn deposit_amounts(
    pair: &CurrencyPair,
    asset: CurrencyId,
    amount: Balance,
    reserve_a: Balance,
    reserve_b: Balance,
) -> (r: Result<(Balance, Balance), Error>)
    ensures
        r == spec_deposit_amounts(*pair, asset, amount, reserve_a, reserve_b),
{
    if !pair.contains(asset) {
        return Err(Error::InvalidAsset);
    }
    if reserve_a == 0 && reserve_b == 0 {
        Ok((amount, amount))
    } else if pair.token_a == asset {
        match exchange_value(pair, asset, amount, reserve_a, reserve_b) {
            Ok(other_amount) => Ok((amount, other_amount)),
            Err(e) => Err(e),
        }
    } else {
        match exchange_value(pair, asset, amount, reserve_a, reserve_b) {
            Ok(other_amount) => Ok((other_amount, amount)),
            Err(e) => Err(e),
        }
    }
}

/// The liquidity tokens that a deposit of `(amount_a, amount_b)` mints.
pub fn liquidity_to_mint(
    amount_a: Balance,
    amount_b: Balance,
    reserve_a: Balance,
    reserve_b: Balance,
    total_issuance: Balance,
) -> (r: Result<Balance, Error>)
    ensures
        r == spec_liquidity_to_mint(amount_a, amount_b, reserve_a, reserve_b, total_issuance),
{
    if total_issuance == 0 || (reserve_a == 0 && reserve_b == 0) {
        let product: u128 = saturating_mul(amount_a, amount_b);
        Ok(integer_sqrt(product))
    } else {
        if reserve_a == 0 || reserve_b == 0 {
            return Err(Error::InvalidAmount);
        }
        let share_a: u128 = saturating_mul(amount_a, total_issuance) / reserve_a;
        let share_b: u128 = saturating_mul(amount_b, total_issuance) / reserve_b;
        if share_a <= share_b {
            Ok(share_a)
        } else {
            Ok(share_b)
        }
    }
}

/// What burning `lp_amount` liquidity tokens pays out of the two reserves.
pub fn withdrawal_amounts(
    lp_amount: Balance,
    reserve_a: Balance,
    reserve_b: Balance,
    total_issuance: Balance,
) -> (r: Result<(Balance, Balance), Error>)
    ensures
        r == spec_withdrawal_amounts(lp_amount, reserve_a, reserve_b, total_issuance),
{
    if total_issuance == 0 {
        return Err(Error::WithdrawWithoutSupply);
    }
    let amount_a: Option<Balance> = checked_mul_div(lp_amount, reserve_a, total_issuance);
    let amount_b: Option<Balance> = checked_mul_div(lp_amount, reserve_b, total_issuance);
    match (amount_a, amount_b) {
        (Some(a), Some(b)) => {
            if a == 0 || b == 0 {
                Err(Error::InvalidAmount)
            } else {
                Ok((a, b))
            }
        },
        _ => Err(Error::InvalidAmount),
    }
}


/// Of a share `floor(n / d)` and a bound `k`: the share is at most `k` where
/// `n <= k * d`, and at least `k` where `n >= k * d`.
proof fn lemma_share_bounds(n: int, d: int, k: int)
    requires
        0 <= n,
        0 < d,
        0 <= k,
    ensures
        n <= k * d ==> n / d <= k,
        n >= k * d ==> n / d >= k,
        n / d >= k ==> n >= k * d,
{
    vstd::arithmetic::div_mod::lemma_fundamental_div_mod(n, d);
    vstd::arithmetic::div_mod::lemma_mod_bound(n, d);
    let q = n / d;
    assert(d * q == q * d) by (nonlinear_arith);
    if n <= k * d && q > k {
        assert(q * d >= k * d + d) by (nonlinear_arith)
            requires
                q >= k + 1,
                d > 0,
        ;
    }
    if n >= k * d && q < k {
        assert(q * d + d <= k * d) by (nonlinear_arith)
            requires
                q + 1 <= k,
                d > 0,
        ;
    }
    if q >= k {
        assert(q * d >= k * d) by (nonlinear_arith)
            requires
                q >= k,
                d > 0,
        ;
    }
}

/// Liquidity is conserved for the only provider of a pool. Where no
/// liquidity token is in issue, a deposit of `(amount_a, amount_b)` mints
/// `minted` tokens; burning all of them pays out both reserves whole: with
/// reserves that were empty before the deposit, exactly `(amount_a,
/// amount_b)`. The withdrawal is refused where nothing was minted, and where
/// `minted` times a reserve exceeds a balance.
pub proof fn lemma_sole_provider_withdraws_all(
    amount_a: Balance,
    amount_b: Balance,
    reserve_a: Balance,
    reserve_b: Balance,
)
    requires
        reserve_a + amount_a <= u128::MAX,
        reserve_b + amount_b <= u128::MAX,
    ensures
        ({
            let minted = spec_integer_sqrt(spec_saturating_mul(amount_a, amount_b));
            let after_a = (reserve_a + amount_a) as u128;
            let after_b = (reserve_b + amount_b) as u128;
            &&& spec_liquidity_to_mint(amount_a, amount_b, reserve_a, reserve_b, 0) == Ok::<
                Balance,
                Error,
            >(minted)
            &&& spec_withdrawal_amounts(minted, after_a, after_b, minted) == if minted == 0 {
                Err::<(Balance, Balance), Error>(Error::WithdrawWithoutSupply)
            } else if minted * after_a > u128::MAX || minted * after_b > u128::MAX {
                Err::<(Balance, Balance), Error>(Error::InvalidAmount)
            } else {
                Ok::<(Balance, Balance), Error>((after_a, after_b))
            }
        }),
{
    let product = spec_saturating_mul(amount_a, amount_b);
    let minted = spec_integer_sqrt(product);
    let after_a = (reserve_a + amount_a) as u128;
    let after_b = (reserve_b + amount_b) as u128;
    lemma_integer_sqrt_exists(product);
    if minted != 0 {
        let m = minted as int;
        assert(m * m >= 1) by (nonlinear_arith)
            requires
                m >= 1,
        ;
        assert(amount_a > 0 && amount_b > 0) by {
            if amount_a == 0 || amount_b == 0 {
                assert(amount_a * amount_b == 0) by (nonlinear_arith)
                    requires
                        amount_a == 0 || amount_b == 0,
                ;
            }
        }
        if m * after_a <= u128::MAX && m * after_b <= u128::MAX {
            assert((m * after_a) / m == after_a) by (nonlinear_arith)
                requires
                    m > 0,
            ;
            assert((m * after_b) / m == after_b) by (nonlinear_arith)
                requires
                    m > 0,
            ;
        }
    }
}

/// Liquidity is conserved for a later provider. Where liquidity tokens are in
/// issue, a deposit of `(amount_a, amount_b)` mints `minted` tokens; burning
/// them again, with nothing else done in between, pays out no more than was
/// deposited, of either asset. It pays out all of a deposited amount exactly
/// where the minted share was not rounded: where `minted * reserve` equals
/// `amount * total_issuance`.
pub proof fn lemma_deposit_then_withdraw(
    amount_a: Balance,
    amount_b: Balance,
    reserve_a: Balance,
    reserve_b: Balance,
    total_issuance: Balance,
    minted: Balance,
)
    requires
        total_issuance > 0,
        spec_liquidity_to_mint(amount_a, amount_b, reserve_a, reserve_b, total_issuance) == Ok::<
            Balance,
            Error,
        >(minted),
        reserve_a + amount_a <= u128::MAX,
        reserve_b + amount_b <= u128::MAX,
        total_issuance + minted <= u128::MAX,
    ensures
        spec_withdrawal_amounts(
            minted,
            (reserve_a + amount_a) as u128,
            (reserve_b + amount_b) as u128,
            (total_issuance + minted) as u128,
        ) matches Ok((paid_a, paid_b)) ==> {
            &&& paid_a <= amount_a
            &&& paid_b <= amount_b
            &&& (paid_a == amount_a <==> minted * reserve_a == amount_a * total_issuance)
            &&& (paid_b == amount_b <==> minted * reserve_b == amount_b * total_issuance)
        },
{
    lemma_minted_share(amount_a, amount_b, reserve_a, reserve_b, total_issuance, minted);
    let after_a = (reserve_a + amount_a) as u128;
    let after_b = (reserve_b + amount_b) as u128;
    let after_issuance = (total_issuance + minted) as u128;
    if spec_withdrawal_amounts(minted, after_a, after_b, after_issuance) is Ok {
        lemma_paid_out(amount_a, reserve_a, total_issuance, minted);
        lemma_paid_out(amount_b, reserve_b, total_issuance, minted);
    }
}

/// What is minted for a deposit is at most the share that either amount adds
/// to its reserve: `minted * reserve <= amount * total_issuance`.
proof fn lemma_minted_share(
    amount_a: Balance,
    amount_b: Balance,
    reserve_a: Balance,
    reserve_b: Balance,
    total_issuance: Balance,
    minted: Balance,
)
    requires
        total_issuance > 0,
        spec_liquidity_to_mint(amount_a, amount_b, reserve_a, reserve_b, total_issuance) == Ok::<
            Balance,
            Error,
        >(minted),
    ensures
        minted * reserve_a <= amount_a * total_issuance,
        minted * reserve_b <= amount_b * total_issuance,
{
    assert(amount_a * total_issuance >= 0 && amount_b * total_issuance >= 0) by (nonlinear_arith)
        requires
            amount_a >= 0,
            amount_b >= 0,
            total_issuance > 0,
    ;
    if reserve_a == 0 && reserve_b == 0 {
        assert(minted * reserve_a == 0 && minted * reserve_b == 0) by (nonlinear_arith)
            requires
                reserve_a == 0,
                reserve_b == 0,
        ;
    } else {
        let na = spec_saturating_mul(amount_a, total_issuance) as int;
        let nb = spec_saturating_mul(amount_b, total_issuance) as int;
        lemma_share_bounds(na, reserve_a as int, minted as int);
        lemma_share_bounds(nb, reserve_b as int, minted as int);
    }
}

/// One leg of a withdrawal that follows a deposit.
proof fn lemma_paid_out(amount: Balance, reserve: Balance, total_issuance: Balance, minted: Balance)
    requires
        total_issuance > 0,
        minted * reserve <= amount * total_issuance,
        reserve + amount <= u128::MAX,
        total_issuance + minted <= u128::MAX,
        spec_checked_mul_div(minted, (reserve + amount) as u128, (total_issuance + minted) as u128) is Some,
    ensures
        ({
            let paid = spec_checked_mul_div(
                minted,
                (reserve + amount) as u128,
                (total_issuance + minted) as u128,
            )->0;
            &&& paid <= amount
            &&& (paid == amount <==> minted * reserve == amount * total_issuance)
        }),
{
    let m = minted as int;
    let r = reserve as int;
    let a = amount as int;
    let t = total_issuance as int;
    let n = m * (r + a);
    let d = t + m;
    assert(n == m * r + m * a) by (nonlinear_arith)
        requires
            n == m * (r + a),
    ;
    assert(a * d == a * t + m * a) by (nonlinear_arith)
        requires
            d == t + m,
    ;
    assert(m * r >= 0 && m * a >= 0) by (nonlinear_arith)
        requires
            m >= 0,
            r >= 0,
            a >= 0,
    ;
    lemma_share_bounds(n, d, a);
}

} // verus!
