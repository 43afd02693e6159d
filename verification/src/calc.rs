//! Swap pricing on the constant-product curve.
//!
//! A trade of `amount_in` against reserves `(reserve_in, reserve_out)` keeps
//! `reserve_in * reserve_out` from falling: the fee is taken off the input
//! before the trade is priced, and stays in the pool.

use vstd::prelude::*;
use crate::error::Error;
use crate::fee::{lemma_mul_floor_bound, spec_mul_floor, Fee};
use crate::math::{
    saturating_mul, spec_saturating_add, spec_saturating_mul, spec_saturating_sub,
};

verus! {

/// The share of an input that is priced, in thousandths: `1000 - floor(fee * 1000)`.
pub open spec fn spec_fee_multiplier(fee: Fee) -> u128 {
    (1000 - spec_mul_floor(fee.parts(), 1000)) as u128
}

/// What `amount_in` buys from reserves `(reserve_in, reserve_out)`, all of
/// them positive: `floor(n / d)` with `n = amount_in * m * reserve_out` and
/// `d = reserve_in * 1000 + amount_in * m`, where `m` is the fee multiplier.
/// Each product and the sum are clamped to the largest balance.
pub open spec fn spec_amount_out(amount_in: u128, reserve_in: u128, reserve_out: u128, fee: Fee) -> u128 {
    let amount_in_with_fee = spec_saturating_mul(amount_in, spec_fee_multiplier(fee));
    let numerator = spec_saturating_mul(amount_in_with_fee, reserve_out);
    let denominator = spec_saturating_add(spec_saturating_mul(reserve_in, 1000), amount_in_with_fee);
    if denominator == 0 {
        0
    } else {
        numerator / denominator
    }
}

/// What has to be paid in to take `amount_out` from reserves
/// `(reserve_in, reserve_out)`: `floor(n / d) + 1` with
/// `n = reserve_in * amount_out * 1000` and `d = m * (reserve_out - amount_out)`,
/// where `m` is the fee multiplier. The products are clamped to the largest
/// balance and the difference to zero. Zero where `d` is zero or the sum does
/// not fit a balance.
pub open spec fn spec_amount_in(amount_out: u128, reserve_in: u128, reserve_out: u128, fee: Fee) -> u128 {
    let numerator = spec_saturating_mul(spec_saturating_mul(reserve_in, amount_out), 1000);
    let denominator = spec_saturating_mul(
        spec_fee_multiplier(fee),
        spec_saturating_sub(reserve_out, amount_out),
    );
    if denominator == 0 || numerator / denominator == u128::MAX {
        0
    } else {
        (numerator / denominator + 1) as u128
    }
}

/// The result of pricing an input: refused for an input of zero, then for an
/// empty reserve.
pub open spec fn spec_get_amount_out(amount_in: u128, reserve_in: u128, reserve_out: u128, fee: Fee) -> Result<u128, Error> {
    if amount_in == 0 {
        Err(Error::InsufficientInputAmount)
    } else if reserve_in == 0 || reserve_out == 0 {
        Err(Error::InsufficientLiquidity)
    } else {
        Ok(spec_amount_out(amount_in, reserve_in, reserve_out, fee))
    }
}

/// The result of pricing an output: refused for an output of zero, then for
/// an empty reserve.
pub open spec fn spec_get_amount_in(amount_out: u128, reserve_in: u128, reserve_out: u128, fee: Fee) -> Result<u128, Error> {
    if amount_out == 0 {
        Err(Error::InsufficientOutputAmount)
    } else if reserve_in == 0 || reserve_out == 0 {
        Err(Error::InsufficientLiquidity)
    } else {
        Ok(spec_amount_in(amount_out, reserve_in, reserve_out, fee))
    }
}

/// The thousandths of an input that remain after the fee.
pub fn fee_multiplier(fee: Fee) -> (m: u128)
    ensures
        m == spec_fee_multiplier(fee),
        m <= 1000,
        m == 1000 - fee.parts() / 1000,
{
    let fee_part: u128 = fee.mul_floor(1000);
    proof {
        fee.lemma_parts_bound();
        lemma_fee_multiplier(fee);
    }
    1000u128.saturating_sub(fee_part)
}

/// The amount of the one asset that is paid out for `amount_in` of the
/// other, at reserves of `reserve_in` and `reserve_out` of the two. Refused
/// for an input of zero and for an empty reserve.
pub fn get_amount_out(amount_in: u128, reserve_in: u128, reserve_out: u128, fee: Fee) -> (r: Result<u128, Error>)
    ensures
        r == spec_get_amount_out(amount_in, reserve_in, reserve_out, fee),
{
    if amount_in == 0 {
        return Err(Error::InsufficientInputAmount);
    }
    if reserve_in == 0 || reserve_out == 0 {
        return Err(Error::InsufficientLiquidity);
    }
    let multiplier: u128 = 1000;
    let fee_multiplier: u128 = fee_multiplier(fee);

    let amount_in_with_fee: u128 = saturating_mul(amount_in, fee_multiplier);
    let numerator: u128 = saturating_mul(amount_in_with_fee, reserve_out);
    let denominator: u128 = saturating_mul(reserve_in, multiplier).saturating_add(amount_in_with_fee);
    let result: u128 = match numerator.checked_div(denominator) {
        Some(quotient) => quotient,
        None => 0,
    };
    Ok(result)
}

/// The amount of the one asset that is to be paid in for `amount_out` of the
/// other, at reserves of `reserve_in` and `reserve_out` of the two: one more
/// than the quotient, so that rounding never leaves the pool short. Refused
/// for an output of zero and for an empty reserve. Zero where the reserve
/// cannot pay out `amount_out` and leave something, and where the fee is the
/// whole.
pub fn get_amount_in(amount_out: u128, reserve_in: u128, reserve_out: u128, fee: Fee) -> (r: Result<u128, Error>)
    ensures
        r == spec_get_amount_in(amount_out, reserve_in, reserve_out, fee),
{
    if amount_out == 0 {
        return Err(Error::InsufficientOutputAmount);
    }
    if reserve_in == 0 || reserve_out == 0 {
        return Err(Error::InsufficientLiquidity);
    }
    let multiplier: u128 = 1000;
    let fee_multiplier: u128 = fee_multiplier(fee);

    let numerator: u128 = saturating_mul(saturating_mul(reserve_in, amount_out), multiplier);
    let denominator: u128 = saturating_mul(fee_multiplier, reserve_out.saturating_sub(amount_out));
    let result: u128 = match numerator.checked_div(denominator) {
        Some(quotient) => match quotient.checked_add(1) {
            Some(bumped) => bumped,
            None => 0,
        },
        None => 0,
    };
    Ok(result)
}

/// The fee multiplier lies between zero and one thousand, and falls by one
/// for each full thousandth of fee.
pub proof fn lemma_fee_multiplier(fee: Fee)
    ensures
        spec_fee_multiplier(fee) == 1000 - fee.parts() / 1000,
        0 <= spec_fee_multiplier(fee) <= 1000,
        spec_fee_multiplier(fee) < 1000 <==> fee.parts() >= 1000,
{
    fee.lemma_parts_bound();
    lemma_mul_floor_bound(fee.parts(), 1000);
    let p: int = fee.parts() as int;
    assert((p * 1000) / 1_000_000 == p / 1000) by (nonlinear_arith)
        requires
            0 <= p,
    ;
}


/// Of a quotient rounded down: `q * d <= n < (q + 1) * d`.
proof fn lemma_floor_div(n: int, d: int)
    requires
        0 <= n,
        0 < d,
    ensures
        0 <= n / d,
        (n / d) * d <= n,
        n < (n / d + 1) * d,
{
    vstd::arithmetic::div_mod::lemma_fundamental_div_mod(n, d);
    vstd::arithmetic::div_mod::lemma_mod_bound(n, d);
    vstd::arithmetic::div_mod::lemma_div_pos_is_pos(n, d);
    assert((n / d + 1) * d == (n / d) * d + d) by (nonlinear_arith);
    assert(d * (n / d) == (n / d) * d) by (nonlinear_arith);
}

/// A quotient rounded down is the largest `q` with `q * d <= n`.
proof fn lemma_floor_div_bound(n: int, d: int, k: int)
    requires
        0 <= n,
        0 < d,
        n <= k * d,
    ensures
        n / d <= k,
{
    lemma_floor_div(n, d);
    let q = n / d;
    if q > k {
        assert(q * d >= (k + 1) * d) by (nonlinear_arith)
            requires
                q >= k + 1,
                d > 0,
        ;
        assert((k + 1) * d == k * d + d) by (nonlinear_arith);
    }
}

/// Where the denominator of the price is exact, the amount paid out is the
/// quotient of the clamped numerator by `reserve_in * 1000 + amount_in * m`.
proof fn lemma_amount_out_unfold(amount_in: u128, reserve_in: u128, reserve_out: u128, fee: Fee)
    requires
        reserve_in > 0,
        reserve_in * 1000 + amount_in * spec_fee_multiplier(fee) <= u128::MAX,
    ensures
        spec_amount_out(amount_in, reserve_in, reserve_out, fee) * (reserve_in * 1000 + amount_in
            * spec_fee_multiplier(fee)) <= amount_in * spec_fee_multiplier(fee) * reserve_out,
{
    let m = spec_fee_multiplier(fee) as int;
    let aif = amount_in * m;
    let out = spec_amount_out(amount_in, reserve_in, reserve_out, fee) as int;
    assert(0 <= aif) by (nonlinear_arith)
        requires
            aif == amount_in * m,
            0 <= m,
    ;
    assert(spec_saturating_mul(amount_in, spec_fee_multiplier(fee)) == aif);
    assert(spec_saturating_mul(reserve_in, 1000) == reserve_in * 1000);
    let den = reserve_in * 1000 + aif;
    let num = spec_saturating_mul(aif as u128, reserve_out) as int;
    assert(0 <= aif * reserve_out) by (nonlinear_arith)
        requires
            0 <= aif,
    ;
    assert(num <= aif * reserve_out);
    assert(out == num / den);
    lemma_floor_div(num, den);
}

/// A swap never pays out more than the reserve holds.
pub proof fn lemma_amount_out_bounded(amount_in: u128, reserve_in: u128, reserve_out: u128, fee: Fee)
    requires
        reserve_in > 0,
    ensures
        spec_amount_out(amount_in, reserve_in, reserve_out, fee) <= reserve_out,
{
    let aif = spec_saturating_mul(amount_in, spec_fee_multiplier(fee)) as int;
    let num = spec_saturating_mul(aif as u128, reserve_out) as int;
    let den = spec_saturating_add(spec_saturating_mul(reserve_in, 1000), aif as u128) as int;
    let out = spec_amount_out(amount_in, reserve_in, reserve_out, fee) as int;
    assert(0 <= aif * reserve_out) by (nonlinear_arith)
        requires
            0 <= aif,
    ;
    assert(num <= aif * reserve_out);
    assert(den >= aif);
    if den != 0 {
        lemma_floor_div(num, den);
        if aif == 0 {
            assert(aif * reserve_out == 0) by (nonlinear_arith)
                requires
                    aif == 0,
            ;
            assert(num == 0);
            assert(out * den <= 0);
            assert(out <= 0) by (nonlinear_arith)
                requires
                    out * den <= 0,
                    den > 0,
                    out >= 0,
            ;
        } else {
            assert(out <= reserve_out) by (nonlinear_arith)
                requires
                    out * den <= num,
                    num <= aif * reserve_out,
                    den >= aif,
                    aif > 0,
                    out >= 0,
                    reserve_out >= 0,
            ;
        }
    }
}

/// The constant product does not fall in a swap: with `out` the amount paid
/// out for `amount_in`, `(reserve_in + amount_in) * (reserve_out - out)` is at
/// least `reserve_in * reserve_out`, and more than that where the fee is a
/// thousandth or above. This holds wherever the denominator of the price,
/// `reserve_in * 1000 + amount_in * m`, fits a balance.
pub proof fn lemma_constant_product(amount_in: u128, reserve_in: u128, reserve_out: u128, fee: Fee)
    requires
        amount_in > 0,
        reserve_in > 0,
        reserve_out > 0,
        reserve_in * 1000 + amount_in * spec_fee_multiplier(fee) <= u128::MAX,
    ensures
        spec_amount_out(amount_in, reserve_in, reserve_out, fee) < reserve_out,
        (reserve_in + amount_in) * (reserve_out - spec_amount_out(
            amount_in,
            reserve_in,
            reserve_out,
            fee,
        )) >= reserve_in * reserve_out,
        fee.parts() >= 1000 ==> (reserve_in + amount_in) * (reserve_out - spec_amount_out(
            amount_in,
            reserve_in,
            reserve_out,
            fee,
        )) > reserve_in * reserve_out,
{
    lemma_fee_multiplier(fee);
    lemma_amount_out_unfold(amount_in, reserve_in, reserve_out, fee);
    let m = spec_fee_multiplier(fee) as int;
    let x = amount_in as int;
    let ri = reserve_in as int;
    let ro = reserve_out as int;
    let out = spec_amount_out(amount_in, reserve_in, reserve_out, fee) as int;
    lemma_priced_share(x, ri, ro, m, out);
}

/// Where the constant product is kept, in full. A swap keeps `(reserve_in +
/// amount_in) * (reserve_out - out)` at or above `reserve_in * reserve_out`
/// on every input but these: the denominator of the price, `reserve_in * 1000
/// + amount_in * m`, exceeds a balance and is clamped, one unit is paid out
/// all the same, and `amount_in * (reserve_out - 1)` is less than
/// `reserve_in`.
pub proof fn lemma_constant_product_in_full(amount_in: u128, reserve_in: u128, reserve_out: u128, fee: Fee)
    requires
        amount_in > 0,
        reserve_in > 0,
        reserve_out > 0,
    ensures
        ({
            let out = spec_amount_out(amount_in, reserve_in, reserve_out, fee);
            let clamped = reserve_in * 1000 + amount_in * spec_fee_multiplier(fee) > u128::MAX;
            &&& out <= reserve_out
            &&& clamped ==> out <= 1
            &&& (reserve_in + amount_in) * (reserve_out - out) >= reserve_in * reserve_out <==> !(
            clamped && out == 1 && amount_in * (reserve_out - 1) < reserve_in)
        }),
{
    let m = spec_fee_multiplier(fee) as int;
    let x = amount_in as int;
    let ri = reserve_in as int;
    let ro = reserve_out as int;
    let out = spec_amount_out(amount_in, reserve_in, reserve_out, fee) as int;
    lemma_fee_multiplier(fee);
    lemma_amount_out_bounded(amount_in, reserve_in, reserve_out, fee);
    if ri * 1000 + x * m <= u128::MAX {
        lemma_constant_product(amount_in, reserve_in, reserve_out, fee);
    } else {
        let aif = spec_saturating_mul(amount_in, spec_fee_multiplier(fee));
        let num = spec_saturating_mul(aif, reserve_out) as int;
        let den = spec_saturating_add(spec_saturating_mul(reserve_in, 1000), aif) as int;
        assert(x * m >= 0) by (nonlinear_arith)
            requires
                x > 0,
                m >= 0,
        ;
        assert(den == u128::MAX);
        assert(out == num / den);
        lemma_floor_div(num, den);
        assert(out <= 1) by (nonlinear_arith)
            requires
                out * den <= num,
                num <= den,
                den > 0,
                out >= 0,
        ;
        if out == 0 {
            assert((ri + x) * (ro - 0) >= ri * ro) by (nonlinear_arith)
                requires
                    x > 0,
                    ro > 0,
                    ri > 0,
            ;
        } else {
            assert((ri + x) * (ro - 1) - ri * ro == x * (ro - 1) - ri) by (nonlinear_arith);
        }
    }
}

/// The constant product of a swap without fee. Where the fee is below a
/// thousandth and nothing is clamped, the product grows by the remainder of
/// the price: by `(amount_in * reserve_out) % (reserve_in + amount_in)`. So
/// it stays as it is exactly where the price is a whole number.
pub proof fn lemma_constant_product_without_fee(amount_in: u128, reserve_in: u128, reserve_out: u128, fee: Fee)
    requires
        amount_in > 0,
        reserve_in > 0,
        reserve_out > 0,
        fee.parts() < 1000,
        reserve_in * 1000 + amount_in * 1000 <= u128::MAX,
        amount_in * 1000 * reserve_out <= u128::MAX,
    ensures
        ({
            let out = spec_amount_out(amount_in, reserve_in, reserve_out, fee);
            &&& out == (amount_in * reserve_out) / (reserve_in + amount_in)
            &&& (reserve_in + amount_in) * (reserve_out - out) - reserve_in * reserve_out == (
            amount_in * reserve_out) % (reserve_in + amount_in)
        }),
{
    lemma_fee_multiplier(fee);
    lemma_amount_out_is_the_quotient(amount_in, reserve_in, reserve_out, fee);
    let x = amount_in as int;
    let ri = reserve_in as int;
    let ro = reserve_out as int;
    let out = spec_amount_out(amount_in, reserve_in, reserve_out, fee) as int;
    assert(x * ro >= 0) by (nonlinear_arith)
        requires
            x > 0,
            ro > 0,
    ;
    assert(x * 1000 * ro == 1000 * (x * ro)) by (nonlinear_arith);
    assert(ri * 1000 + x * 1000 == 1000 * (ri + x)) by (nonlinear_arith);
    vstd::arithmetic::div_mod::lemma_div_multiples_vanish_quotient(1000, x * ro, ri + x);
    assert(out == (x * ro) / (ri + x));
    vstd::arithmetic::div_mod::lemma_fundamental_div_mod(x * ro, ri + x);
    assert((ri + x) * (ro - out) - ri * ro == x * ro - (ri + x) * out) by (nonlinear_arith);
}

/// The arithmetic of the constant product: from `out * (1000 * ri + x * m) <=
/// x * m * ro` with `m <= 1000` follows `out * (ri + x) <= x * ro`.
proof fn lemma_priced_share(x: int, ri: int, ro: int, m: int, out: int)
    requires
        x > 0,
        ri > 0,
        ro > 0,
        0 <= m <= 1000,
        out >= 0,
        out * (ri * 1000 + x * m) <= x * m * ro,
    ensures
        out < ro,
        out * ri * 1000 <= x * m * (ro - out),
        (ri + x) * (ro - out) >= ri * ro,
        m < 1000 ==> (ri + x) * (ro - out) > ri * ro,
{
    let aif = x * m;
    assert(aif >= 0) by (nonlinear_arith)
        requires
            aif == x * m,
            x > 0,
            m >= 0,
    ;
    assert(out * (ri * 1000 + aif) == out * ri * 1000 + out * aif) by (nonlinear_arith);
    assert(x * m * ro == aif * ro);
    if out >= ro {
        assert(out * ri * 1000 > 0) by (nonlinear_arith)
            requires
                out >= ro,
                ro > 0,
                ri > 0,
        ;
        assert(out * aif >= aif * ro) by (nonlinear_arith)
            requires
                out >= ro,
                aif >= 0,
        ;
    }
    assert(aif * (ro - out) == aif * ro - out * aif) by (nonlinear_arith);
    assert(out * ri * 1000 <= aif * (ro - out));
    assert(aif * (ro - out) <= 1000 * x * (ro - out)) by (nonlinear_arith)
        requires
            aif == x * m,
            m <= 1000,
            x > 0,
            ro - out > 0,
    ;
    assert(m < 1000 ==> aif * (ro - out) < 1000 * x * (ro - out)) by (nonlinear_arith)
        requires
            aif == x * m,
            x > 0,
            ro - out > 0,
    ;
    assert(1000 * ((ri + x) * (ro - out) - ri * ro) == 1000 * x * (ro - out) - out * ri * 1000)
        by (nonlinear_arith);
}

/// Round trip from an input: the input that the pricing asks for what
/// `amount_in` buys is at most `amount_in + 1`. This holds wherever the
/// denominator of the price, `reserve_in * 1000 + amount_in * m`, fits a
/// balance and the input buys anything at all. That input buys no less than
/// `amount_in` does, wherever `lemma_round_trip_from_output` holds of it.
pub proof fn lemma_round_trip_from_input(amount_in: u128, reserve_in: u128, reserve_out: u128, fee: Fee)
    requires
        amount_in > 0,
        reserve_in > 0,
        reserve_out > 0,
        reserve_in * 1000 + amount_in * spec_fee_multiplier(fee) <= u128::MAX,
        spec_amount_out(amount_in, reserve_in, reserve_out, fee) > 0,
    ensures
        spec_amount_in(
            spec_amount_out(amount_in, reserve_in, reserve_out, fee),
            reserve_in,
            reserve_out,
            fee,
        ) <= amount_in + 1,
        ({
            let amount_out = spec_amount_out(amount_in, reserve_in, reserve_out, fee);
            let back = spec_amount_in(amount_out, reserve_in, reserve_out, fee);
            back > 0 && reserve_in * amount_out * 1000 <= u128::MAX && back * spec_fee_multiplier(
                fee,
            ) * reserve_out <= u128::MAX ==> spec_amount_out(back, reserve_in, reserve_out, fee)
                >= amount_out
        }),
{
    let amount_out = spec_amount_out(amount_in, reserve_in, reserve_out, fee);
    let back = spec_amount_in(amount_out, reserve_in, reserve_out, fee);
    if back > 0 && reserve_in * amount_out * 1000 <= u128::MAX && back * spec_fee_multiplier(fee)
        * reserve_out <= u128::MAX {
        lemma_round_trip_from_output(amount_out, reserve_in, reserve_out, fee);
    }
    lemma_fee_multiplier(fee);
    lemma_amount_out_unfold(amount_in, reserve_in, reserve_out, fee);
    let m = spec_fee_multiplier(fee) as int;
    let x = amount_in as int;
    let ri = reserve_in as int;
    let ro = reserve_out as int;
    let y = spec_amount_out(amount_in, reserve_in, reserve_out, fee);
    lemma_priced_share(x, ri, ro, m, y as int);
    let n_true = ri * y * 1000;
    let d_true = m * (ro - y);
    assert(ri * y >= 0) by (nonlinear_arith)
        requires
            ri > 0,
            y >= 0,
    ;
    let n = spec_saturating_mul(spec_saturating_mul(reserve_in, y), 1000) as int;
    assert(n <= n_true) by {
        assert(spec_saturating_mul(reserve_in, y) <= ri * y);
        if spec_saturating_mul(reserve_in, y) == ri * y {
            assert(spec_saturating_mul(spec_saturating_mul(reserve_in, y), 1000) <= ri * y * 1000);
        } else {
            assert(ri * y > u128::MAX);
        }
    }
    assert(spec_saturating_sub(reserve_out, y) == ro - y);
    let d = spec_saturating_mul(spec_fee_multiplier(fee), (ro - y) as u128) as int;
    if m == 0 {
        assert(y * ri * 1000 <= 0) by (nonlinear_arith)
            requires
                y * ri * 1000 <= x * m * (ro - y),
                m == 0,
        ;
        assert(y * ri * 1000 > 0) by (nonlinear_arith)
            requires
                y > 0,
                ri > 0,
        ;
    }
    assert(d_true > 0) by (nonlinear_arith)
        requires
            d_true == m * (ro - y),
            m > 0,
            ro - y > 0,
    ;
    assert(n_true == y * ri * 1000) by (nonlinear_arith)
        requires
            n_true == ri * y * 1000,
    ;
    assert(x * m * (ro - y) == x * d_true) by (nonlinear_arith)
        requires
            d_true == m * (ro - y),
    ;
    if d == d_true {
        lemma_floor_div_bound(n, d, x);
    } else {
        assert(d == u128::MAX);
        lemma_floor_div_bound(n, d, 1);
    }
}

/// Round trip from an output: the input that the pricing asks for
/// `amount_out` buys at least `amount_out`. This holds wherever that input is
/// not zero and neither `reserve_in * amount_out * 1000` nor the numerator of
/// the price of that input, `input * m * reserve_out`, exceeds a balance.
pub proof fn lemma_round_trip_from_output(amount_out: u128, reserve_in: u128, reserve_out: u128, fee: Fee)
    requires
        amount_out > 0,
        reserve_in > 0,
        reserve_out > 0,
        spec_amount_in(amount_out, reserve_in, reserve_out, fee) > 0,
        reserve_in * amount_out * 1000 <= u128::MAX,
        spec_amount_in(amount_out, reserve_in, reserve_out, fee) * spec_fee_multiplier(fee)
            * reserve_out <= u128::MAX,
    ensures
        spec_amount_out(
            spec_amount_in(amount_out, reserve_in, reserve_out, fee),
            reserve_in,
            reserve_out,
            fee,
        ) >= amount_out,
{
    lemma_fee_multiplier(fee);
    let m = spec_fee_multiplier(fee) as int;
    let y = amount_out as int;
    let ri = reserve_in as int;
    let ro = reserve_out as int;
    let x = spec_amount_in(amount_out, reserve_in, reserve_out, fee) as int;
    // The input: x = n / d + 1 with n = ri * y * 1000 and d <= m * (ro - y).
    assert(ri * y >= 1 && ri * y <= ri * y * 1000) by (nonlinear_arith)
        requires
            ri > 0,
            y > 0,
    ;
    let n = ri * y * 1000;
    assert(spec_saturating_mul(spec_saturating_mul(reserve_in, amount_out), 1000) == n);
    let diff = spec_saturating_sub(reserve_out, amount_out);
    let d = spec_saturating_mul(spec_fee_multiplier(fee), diff) as int;
    assert(d != 0);
    assert(x == n / d + 1);
    assert(m > 0 && diff > 0) by {
        if m == 0 || diff == 0 {
            assert(m * diff == 0) by (nonlinear_arith)
                requires
                    m == 0 || diff == 0,
            ;
        }
    }
    assert(diff == ro - y);
    assert(d <= m * (ro - y));
    lemma_floor_div(n, d);
    assert(x * (m * (ro - y)) > n) by (nonlinear_arith)
        requires
            n < x * d,
            d <= m * (ro - y),
            x > 0,
    ;
    // The price of that input.
    let aif = x * m;
    assert(aif > 0 && aif <= aif * ro) by (nonlinear_arith)
        requires
            aif == x * m,
            x > 0,
            m > 0,
            ro > 0,
    ;
    assert(x * m * ro == aif * ro);
    assert(spec_saturating_mul(x as u128, spec_fee_multiplier(fee)) == aif);
    let num = aif * ro;
    assert(spec_saturating_mul(aif as u128, reserve_out) == num);
    let den = spec_saturating_add(spec_saturating_mul(reserve_in, 1000), aif as u128) as int;
    assert(0 < den <= ri * 1000 + aif);
    let out = spec_amount_out(x as u128, reserve_in, reserve_out, fee) as int;
    assert(out == num / den);
    lemma_floor_div(num, den);
    assert(y * (ri * 1000 + aif) <= num) by (nonlinear_arith)
        requires
            x * (m * (ro - y)) > n,
            n == ri * y * 1000,
            aif == x * m,
            num == aif * ro,
    ;
    if out < y {
        assert((out + 1) * den <= y * (ri * 1000 + aif)) by (nonlinear_arith)
            requires
                out + 1 <= y,
                0 < den <= ri * 1000 + aif,
                out >= 0,
        ;
    }
}


/// Where nothing is clamped, the amount paid out is the quotient of
/// `amount_in * m * reserve_out` by `reserve_in * 1000 + amount_in * m`, with
/// `m` the fee multiplier.
pub proof fn lemma_amount_out_is_the_quotient(amount_in: u128, reserve_in: u128, reserve_out: u128, fee: Fee)
    requires
        reserve_in > 0,
        amount_in * spec_fee_multiplier(fee) * reserve_out <= u128::MAX,
        reserve_in * 1000 + amount_in * spec_fee_multiplier(fee) <= u128::MAX,
    ensures
        spec_amount_out(amount_in, reserve_in, reserve_out, fee) == (amount_in * spec_fee_multiplier(
            fee,
        ) * reserve_out) / (reserve_in * 1000 + amount_in * spec_fee_multiplier(fee)),
{
    let m = spec_fee_multiplier(fee) as int;
    let aif = amount_in * m;
    assert(0 <= aif) by (nonlinear_arith)
        requires
            aif == amount_in * m,
            0 <= m,
    ;
    assert(spec_saturating_mul(amount_in, spec_fee_multiplier(fee)) == aif);
    assert(spec_saturating_mul(reserve_in, 1000) == reserve_in * 1000);
    assert(amount_in * spec_fee_multiplier(fee) * reserve_out == aif * reserve_out);
    assert(spec_saturating_mul(aif as u128, reserve_out) == aif * reserve_out);
}

/// Where nothing is clamped and the reserve can pay, the amount to pay in is
/// one more than the quotient of `reserve_in * amount_out * 1000` by `m *
/// (reserve_out - amount_out)`, with `m` the fee multiplier.
pub proof fn lemma_amount_in_is_the_quotient(amount_out: u128, reserve_in: u128, reserve_out: u128, fee: Fee)
    requires
        amount_out < reserve_out,
        spec_fee_multiplier(fee) > 0,
        reserve_in * amount_out * 1000 < u128::MAX,
    ensures
        spec_amount_in(amount_out, reserve_in, reserve_out, fee) == (reserve_in * amount_out * 1000)
            / (spec_fee_multiplier(fee) * (reserve_out - amount_out)) + 1,
{
    lemma_fee_multiplier(fee);
    let m = spec_fee_multiplier(fee) as int;
    let n = reserve_in * amount_out * 1000;
    let d = m * (reserve_out - amount_out);
    assert(0 <= reserve_in * amount_out <= n) by (nonlinear_arith)
        requires
            n == reserve_in * amount_out * 1000,
            0 <= reserve_in,
            0 <= amount_out,
    ;
    assert(0 < d <= 1000 * reserve_out) by (nonlinear_arith)
        requires
            d == m * (reserve_out - amount_out),
            0 < m <= 1000,
            0 <= amount_out < reserve_out,
    ;
    assert(spec_saturating_mul(spec_saturating_mul(reserve_in, amount_out), 1000) == n);
    assert(spec_saturating_sub(reserve_out, amount_out) == reserve_out - amount_out);
    if d > u128::MAX {
        // The quotient is zero, by the clamped denominator as by the true one.
        assert(n / d == 0) by (nonlinear_arith)
            requires
                0 <= n < d,
        ;
        assert(n / (u128::MAX as int) == 0) by (nonlinear_arith)
            requires
                0 <= n < u128::MAX,
        ;
    } else {
        lemma_floor_div(n, d);
        assert(n / d < u128::MAX) by (nonlinear_arith)
            requires
                (n / d) * d <= n,
                n < u128::MAX,
                d >= 1,
                n / d >= 0,
        ;
    }
}

} // verus!
