//! Integer helpers for reserve and price arithmetic on 128-bit balances.
//! None of them wraps: they clamp, or they report failure.

use vstd::prelude::*;
use crate::error::ArithmeticError;

verus! {

/// `a * b`, clamped to the largest representable balance.
pub open spec fn spec_saturating_mul(a: u128, b: u128) -> u128 {
    if a * b > u128::MAX {
        u128::MAX
    } else {
        (a * b) as u128
    }
}

/// `a + b`, clamped to the largest representable balance.
pub open spec fn spec_saturating_add(a: u128, b: u128) -> u128 {
    if a + b > u128::MAX {
        u128::MAX
    } else {
        (a + b) as u128
    }
}

/// `a - b`, clamped to zero.
pub open spec fn spec_saturating_sub(a: u128, b: u128) -> u128 {
    if a < b {
        0
    } else {
        (a - b) as u128
    }
}

/// `floor(value * numerator / denominator)` by a checked product and a
/// checked quotient: nothing where the product exceeds the largest balance or
/// the denominator is zero.
pub open spec fn spec_checked_mul_div(value: u128, numerator: u128, denominator: u128) -> Option<u128> {
    if denominator == 0 || value * numerator > u128::MAX {
        None
    } else {
        Some(((value * numerator) / (denominator as int)) as u128)
    }
}

/// `floor(value * numerator / denominator)`, whatever the size of the
/// product: refused where the denominator is zero, and where the quotient
/// exceeds the largest balance.
pub open spec fn spec_mul_div(value: u128, numerator: u128, denominator: u128) -> Result<
    u128,
    ArithmeticError,
> {
    if denominator == 0 {
        Err(ArithmeticError::DivisionByZero)
    } else if (value * numerator) / (denominator as int) > u128::MAX {
        Err(ArithmeticError::Overflow)
    } else {
        Ok(((value * numerator) / (denominator as int)) as u128)
    }
}

/// `r` is the floor of the square root of `x`.
pub open spec fn is_floor_sqrt(x: int, r: int) -> bool {
    0 <= r && r * r <= x < (r + 1) * (r + 1)
}

/// The floor of the square root of `x`.
pub open spec fn spec_integer_sqrt(x: u128) -> u128 {
    choose|r: u128| is_floor_sqrt(x as int, r as int)
}

/// Multiplies two balances, clamping at the largest representable balance.
pub fn saturating_mul(a: u128, b: u128) -> (r: u128)
    ensures
        r == spec_saturating_mul(a, b),
{
    match a.checked_mul(b) {
        Some(v) => v,
        None => u128::MAX,
    }
}

/// Multiplies `value` by `numerator` and divides by `denominator`, rounding
/// down. Fails where the product does not fit a balance, and where the
/// denominator is zero.
pub fn checked_mul_div(value: u128, numerator: u128, denominator: u128) -> (r: Option<u128>)
    ensures
        r == spec_checked_mul_div(value, numerator, denominator),
{
    match value.checked_mul(numerator) {
        Some(product) => {
            if denominator == 0 {
                None
            } else {
                Some(product / denominator)
            }
        },
        None => None,
    }
}

/// The sum of two remainders of a division by `divisor`, as a carry of zero
/// or one and a remainder again.
fn add_remainders(a: u128, b: u128, divisor: u128) -> (r: (u128, u128))
    requires
        a < divisor,
        b < divisor,
    ensures
        a + b == r.0 * divisor + r.1,
        r.0 <= 1,
        r.1 < divisor,
{
    if a >= divisor - b {
        (1, a - (divisor - b))
    } else {
        (0, a + b)
    }
}

/// The quotient and the remainder of `remainder * numerator` by `divisor`,
/// for a `remainder` below the divisor; nothing where the quotient exceeds
/// the largest balance. The product is built up from the bits of the
/// numerator, lowest first, with the quotient and the remainder of every
/// part taken as soon as the part is known.
fn scale_remainder(remainder: u128, numerator: u128, divisor: u128) -> (r: Option<(u128, u128)>)
    requires
        remainder < divisor,
    ensures
        match r {
            Some((quotient, rest)) => remainder * numerator == quotient * divisor + rest && rest
                < divisor,
            None => remainder * numerator >= (u128::MAX + 1) * divisor,
        },
{
    // The part of the product that is made of the bits seen so far.
    let mut sum_quotient: u128 = 0;
    let mut sum_rest: u128 = 0;
    // The remainder times the weight of the next bit, unless that is lost:
    // too large for its quotient to be held.
    let mut weighted_quotient: u128 = 0;
    let mut weighted_rest: u128 = remainder;
    let mut lost: bool = false;
    let mut bits: u128 = numerator;
    let ghost mut weight: int = 1;
    let ghost mut seen: int = 0;
    proof {
        assert(remainder * 0 == 0 * divisor + 0) by (nonlinear_arith);
        assert(remainder * 1 == 0 * divisor + remainder) by (nonlinear_arith);
        assert(numerator == numerator * 1 + 0) by (nonlinear_arith);
    }
    while bits != 0
        invariant
            remainder < divisor,
            weight >= 1,
            0 <= seen < weight,
            numerator == bits * weight + seen,
            remainder * seen == sum_quotient * divisor + sum_rest,
            sum_rest < divisor,
            !lost ==> remainder * weight == weighted_quotient * divisor + weighted_rest,
            !lost ==> weighted_rest < divisor,
            lost ==> remainder * weight >= (u128::MAX + 1) * divisor,
        decreases bits,
    {
        let bit: u128 = bits % 2;
        let ghost seen_before = seen;
        if bit == 1 {
            proof {
                // The numerator is at least what has been seen and this bit.
                assert(bits * weight >= weight) by (nonlinear_arith)
                    requires
                        bits >= 1,
                        weight >= 1,
                ;
                assert(remainder * numerator >= remainder * (seen + weight)) by (nonlinear_arith)
                    requires
                        numerator >= seen + weight,
                        remainder >= 0,
                ;
                assert(remainder * (seen + weight) == remainder * seen + remainder * weight)
                    by (nonlinear_arith);
                assert(remainder * seen >= 0) by (nonlinear_arith)
                    requires
                        remainder >= 0,
                        seen >= 0,
                ;
            }
            if lost {
                return None;
            }
            let (carry, rest) = add_remainders(sum_rest, weighted_rest, divisor);
            proof {
                assert((sum_quotient + weighted_quotient + carry) * divisor == sum_quotient
                    * divisor + weighted_quotient * divisor + carry * divisor)
                    by (nonlinear_arith);
                if sum_quotient + weighted_quotient + carry > u128::MAX {
                    assert((sum_quotient + weighted_quotient + carry) * divisor >= (u128::MAX + 1)
                        * divisor) by (nonlinear_arith)
                        requires
                            sum_quotient + weighted_quotient + carry >= u128::MAX + 1,
                            divisor > 0,
                    ;
                }
            }
            let quotient: u128 = match sum_quotient.checked_add(weighted_quotient) {
                Some(partial) => match partial.checked_add(carry) {
                    Some(quotient) => quotient,
                    None => {
                        return None;
                    },
                },
                None => {
                    return None;
                },
            };
            sum_quotient = quotient;
            sum_rest = rest;
            proof {
                seen = seen + weight;
            }
        }
        if !lost {
            let (carry, rest) = add_remainders(weighted_rest, weighted_rest, divisor);
            proof {
                assert(remainder * (2 * weight) == 2 * (remainder * weight)) by (nonlinear_arith);
                assert((2 * weighted_quotient + carry) * divisor == 2 * (weighted_quotient
                    * divisor) + carry * divisor) by (nonlinear_arith);
                if 2 * weighted_quotient + carry > u128::MAX {
                    assert((2 * weighted_quotient + carry) * divisor >= (u128::MAX + 1) * divisor)
                        by (nonlinear_arith)
                        requires
                            2 * weighted_quotient + carry >= u128::MAX + 1,
                            divisor > 0,
                    ;
                }
            }
            match weighted_quotient.checked_add(weighted_quotient) {
                Some(doubled) => match doubled.checked_add(carry) {
                    Some(quotient) => {
                        weighted_quotient = quotient;
                        weighted_rest = rest;
                    },
                    None => {
                        lost = true;
                    },
                },
                None => {
                    lost = true;
                },
            }
        } else {
            proof {
                assert(remainder * (2 * weight) >= remainder * weight) by (nonlinear_arith)
                    requires
                        remainder >= 0,
                        weight >= 1,
                ;
            }
        }
        proof {
            let next = bits / 2;
            assert(bits == 2 * next + bit);
            assert((2 * next + bit) * weight == next * (2 * weight) + bit * weight)
                by (nonlinear_arith);
            assert(bit * weight == if bit == 1 { weight } else { 0 }) by (nonlinear_arith)
                requires
                    bit == 0 || bit == 1,
            ;
            weight = 2 * weight;
        }
        bits = bits / 2;
    }
    proof {
        assert(bits * weight == 0) by (nonlinear_arith)
            requires
                bits == 0,
        ;
    }
    Some((sum_quotient, sum_rest))
}

/// Scales `value` by `numerator / denominator`, rounding down. The product
/// may be any size: the quotient is right wherever it fits a balance. Fails
/// where the denominator is zero, and where the quotient does not fit.
pub fn mul_div(value: u128, numerator: u128, denominator: u128) -> (r: Result<
    u128,
    ArithmeticError,
>)
    ensures
        r == spec_mul_div(value, numerator, denominator),
{
    if denominator == 0 {
        return Err(ArithmeticError::DivisionByZero);
    }
    // value * numerator == whole * numerator * denominator + remainder * numerator
    let whole: u128 = value / denominator;
    let remainder: u128 = value % denominator;
    let ghost product = value * numerator;
    let ghost d = denominator as int;
    proof {
        assert(value == whole * denominator + remainder) by {
            vstd::arithmetic::div_mod::lemma_fundamental_div_mod(value as int, d);
            assert(d * (value as int / d) == whole * denominator) by (nonlinear_arith)
                requires
                    whole == value as int / d,
                    d == denominator,
            ;
        }
        assert(product == (whole * numerator) * d + remainder * numerator) by (nonlinear_arith)
            requires
                product == value * numerator,
                value == whole * denominator + remainder,
                d == denominator,
        ;
        assert(whole * numerator >= 0 && remainder * numerator >= 0) by (nonlinear_arith)
            requires
                whole >= 0,
                remainder >= 0,
                numerator >= 0,
        ;
    }
    match scale_remainder(remainder, numerator, denominator) {
        None => {
            proof {
                assert((whole * numerator) * d >= 0) by (nonlinear_arith)
                    requires
                        whole * numerator >= 0,
                        d > 0,
                ;
                lemma_quotient_at_least(product, d, u128::MAX + 1);
            }
            Err(ArithmeticError::Overflow)
        },
        Some((quotient, rest)) => {
            proof {
                assert(product == (whole * numerator + quotient) * d + rest) by (nonlinear_arith)
                    requires
                        product == (whole * numerator) * d + remainder * numerator,
                        remainder * numerator == quotient * denominator + rest,
                        d == denominator,
                ;
                vstd::arithmetic::div_mod::lemma_fundamental_div_mod_converse(
                    product,
                    d,
                    whole * numerator + quotient,
                    rest as int,
                );
            }
            match whole.checked_mul(numerator) {
                Some(scaled) => match scaled.checked_add(quotient) {
                    Some(result) => Ok(result),
                    None => Err(ArithmeticError::Overflow),
                },
                None => Err(ArithmeticError::Overflow),
            }
        },
    }
}

/// A quotient rounded down is at least `k` where the dividend is at least
/// `k` times the divisor.
proof fn lemma_quotient_at_least(n: int, d: int, k: int)
    requires
        0 < d,
        n >= k * d,
    ensures
        n / d >= k,
{
    vstd::arithmetic::div_mod::lemma_fundamental_div_mod(n, d);
    vstd::arithmetic::div_mod::lemma_mod_bound(n, d);
    let q = n / d;
    if q < k {
        assert(d * q + d <= k * d) by (nonlinear_arith)
            requires
                q + 1 <= k,
                d > 0,
        ;
    }
}

/// `num_integer::sqrt` on `u128`. Its documentation promises the truncated
/// principal square root: a result `r` with `r * r <= x < (r + 1) * (r + 1)`.
#[verifier::external_body]
fn num_integer_sqrt(x: u128) -> (r: u128)
    ensures
        is_floor_sqrt(x as int, r as int),
{
    num_integer::sqrt(x)
}

/// The floor of the square root of `x`.
pub fn integer_sqrt(x: u128) -> (r: u128)
    ensures
        r == spec_integer_sqrt(x),
        is_floor_sqrt(x as int, r as int),
{
    let r: u128 = num_integer_sqrt(x);
    proof {
        lemma_integer_sqrt(x, r);
    }
    r
}

/// The square root function picks the one number that is the floor of the
/// square root.
pub proof fn lemma_integer_sqrt(x: u128, r: u128)
    requires
        is_floor_sqrt(x as int, r as int),
    ensures
        spec_integer_sqrt(x) == r,
{
    lemma_floor_sqrt_unique(x as int, r as int, spec_integer_sqrt(x) as int);
}

/// Every balance has a square root: `spec_integer_sqrt(x)` squared is at most
/// `x`, and the next number squared is more.
pub proof fn lemma_integer_sqrt_exists(x: u128)
    ensures
        is_floor_sqrt(x as int, spec_integer_sqrt(x) as int),
    decreases x,
{
    if x == 0 {
        assert(is_floor_sqrt(0, 0));
        lemma_integer_sqrt(0, 0);
    } else {
        let y: u128 = (x - 1) as u128;
        lemma_integer_sqrt_exists(y);
        let r: int = spec_integer_sqrt(y) as int;
        assert((r + 1) * (r + 1) == r * r + 2 * r + 1) by (nonlinear_arith);
        if (r + 1) * (r + 1) <= x {
            assert((r + 2) * (r + 2) == (r + 1) * (r + 1) + 2 * r + 3) by (nonlinear_arith);
            assert(r + 1 <= u128::MAX) by (nonlinear_arith)
                requires
                    (r + 1) * (r + 1) <= u128::MAX,
                    r >= 0,
            ;
            assert(is_floor_sqrt(x as int, r + 1));
            lemma_integer_sqrt(x, (r + 1) as u128);
        } else {
            assert(is_floor_sqrt(x as int, r));
            lemma_integer_sqrt(x, r as u128);
        }
    }
}

/// The floor of the square root is unique: two numbers that both are the
/// floor of the square root of `x` are the same number.
pub proof fn lemma_floor_sqrt_unique(x: int, r: int, s: int)
    requires
        is_floor_sqrt(x, r),
        is_floor_sqrt(x, s),
    ensures
        r == s,
{
    if r < s {
        assert((r + 1) * (r + 1) <= s * s) by (nonlinear_arith)
            requires
                0 <= r,
                r + 1 <= s,
        ;
    } else if s < r {
        assert((s + 1) * (s + 1) <= r * r) by (nonlinear_arith)
            requires
                0 <= s,
                s + 1 <= r,
        ;
    }
}

/// The square root is exact on perfect squares.
pub proof fn lemma_integer_sqrt_of_square(n: u128)
    requires
        n * n <= u128::MAX,
    ensures
        spec_integer_sqrt((n * n) as u128) == n,
{
    assert(n * n < (n + 1) * (n + 1)) by (nonlinear_arith)
        requires
            0 <= n,
    ;
    lemma_integer_sqrt((n * n) as u128, n);
}

} // verus!
