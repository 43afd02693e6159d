//! The trading fee of a pool: a fraction between zero and one, held in parts
//! per million.

use vstd::prelude::*;

verus! {

/// The number of parts that make up the whole.
pub const ACCURACY: u32 = 1_000_000;

/// A fraction in `[0, 1]`, in parts per million.
#[derive(Clone, Copy, Debug, PartialEq, Eq, Structural)]
pub struct Fee {
    parts: u32,
}

/// `floor(parts * value / 1_000_000)`.
pub open spec fn spec_mul_floor(parts: u32, value: u128) -> int {
    (parts * value) / 1_000_000
}

/// `sp_arithmetic::Permill::from_parts(parts).mul_floor(value)`. `from_parts`
/// keeps `parts` as it is up to one million; `mul_floor` multiplies the
/// fraction `parts / 1_000_000` with `value` and rounds down, splitting
/// `value` by the million so that nothing overflows.
#[verifier::external_body]
fn permill_mul_floor(parts: u32, value: u128) -> (r: u128)
    requires
        parts <= ACCURACY,
    ensures
        r == spec_mul_floor(parts, value),
{
    sp_arithmetic::Permill::from_parts(parts).mul_floor(value)
}

impl Fee {
    /// Every fee is at most the whole.
    #[verifier::type_invariant]
    spec fn in_range(self) -> bool {
        self.parts <= ACCURACY
    }

    /// The fee in parts per million.
    pub closed spec fn parts(self) -> u32 {
        if self.parts > ACCURACY {
            ACCURACY
        } else {
            self.parts
        }
    }

    /// The fee of `parts` per million, clamped to the whole.
    pub fn from_parts(parts: u32) -> (fee: Fee)
        ensures
            fee.parts() == if parts > ACCURACY { ACCURACY } else { parts },
    {
        if parts > ACCURACY {
            Fee { parts: ACCURACY }
        } else {
            Fee { parts }
        }
    }

    /// The fee of `x` percent, clamped to one hundred percent.
    pub fn from_percent(x: u32) -> (fee: Fee)
        ensures
            fee.parts() == if x > 100 { ACCURACY as int } else { x * 10_000 },
    {
        if x > 100 {
            Fee { parts: ACCURACY }
        } else {
            Fee { parts: x * 10_000 }
        }
    }

    /// The fee in parts per million.
    pub fn deconstruct(self) -> (parts: u32)
        ensures
            parts == self.parts(),
            parts <= ACCURACY,
    {
        proof {
            use_type_invariant(&self);
        }
        self.parts
    }

    /// The fee applied to `value`, rounded down.
    pub fn mul_floor(self, value: u128) -> (r: u128)
        ensures
            r == spec_mul_floor(self.parts(), value),
            r <= value,
    {
        proof {
            use_type_invariant(&self);
        }
        let r: u128 = permill_mul_floor(self.parts, value);
        proof {
            lemma_mul_floor_bound(self.parts, value);
        }
        r
    }

    /// A fee never exceeds the whole.
    pub proof fn lemma_parts_bound(self)
        ensures
            self.parts() <= ACCURACY,
    {
    }
}

/// A fraction of a value is no more than the value.
pub proof fn lemma_mul_floor_bound(parts: u32, value: u128)
    requires
        parts <= ACCURACY,
    ensures
        0 <= spec_mul_floor(parts, value) <= value,
        spec_mul_floor(parts, value) <= parts * value / 1_000_000,
{
    assert(0 <= parts * value <= 1_000_000 * value) by (nonlinear_arith)
        requires
            0 <= parts <= 1_000_000,
            0 <= value,
    ;
}

} // verus!
