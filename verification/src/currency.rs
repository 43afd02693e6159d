//! Asset identifiers.

use vstd::prelude::*;

verus! {

/// The four bytes that name a plain token.
pub type ShortSymbol = [u8; 4];

/// The eight bytes that name a token derived from two plain tokens.
pub type LongSymbol = [u8; 8];

/// The name of a token.
#[derive(Clone, Copy, Debug, Eq, PartialOrd, Ord, Hash)]
pub enum TokenSymbol {
    Short(ShortSymbol),
    Long(LongSymbol),
}

/// A fungible asset: the native currency, or a token.
#[derive(Clone, Copy, Debug, Eq, PartialOrd, Ord, Hash)]
pub enum CurrencyId {
    Native,
    Token(TokenSymbol),
}

/// Whether two short symbols hold the same bytes.
fn same_short(a: &ShortSymbol, b: &ShortSymbol) -> (r: bool)
    ensures
        r == (*a == *b),
{
    let r: bool = a[0] == b[0] && a[1] == b[1] && a[2] == b[2] && a[3] == b[3];
    proof {
        if r {
            assert(*a =~= *b);
        }
    }
    r
}

/// Whether two long symbols hold the same bytes.
fn same_long(a: &LongSymbol, b: &LongSymbol) -> (r: bool)
    ensures
        r == (*a == *b),
{
    let r: bool = a[0] == b[0] && a[1] == b[1] && a[2] == b[2] && a[3] == b[3] && a[4] == b[4]
        && a[5] == b[5] && a[6] == b[6] && a[7] == b[7];
    proof {
        if r {
            assert(*a =~= *b);
        }
    }
    r
}

impl PartialEq for TokenSymbol {
    fn eq(&self, other: &Self) -> (r: bool) {
        match (self, other) {
            (TokenSymbol::Short(a), TokenSymbol::Short(b)) => same_short(a, b),
            (TokenSymbol::Long(a), TokenSymbol::Long(b)) => same_long(a, b),
            _ => false,
        }
    }
}

impl vstd::std_specs::cmp::PartialEqSpecImpl for TokenSymbol {
    open spec fn obeys_eq_spec() -> bool {
        true
    }

    open spec fn eq_spec(&self, other: &Self) -> bool {
        *self == *other
    }
}

impl PartialEq for CurrencyId {
    fn eq(&self, other: &Self) -> (r: bool) {
        match (self, other) {
            (CurrencyId::Native, CurrencyId::Native) => true,
            (CurrencyId::Token(a), CurrencyId::Token(b)) => *a == *b,
            _ => false,
        }
    }
}

impl vstd::std_specs::cmp::PartialEqSpecImpl for CurrencyId {
    open spec fn obeys_eq_spec() -> bool {
        true
    }

    open spec fn eq_spec(&self, other: &Self) -> bool {
        *self == *other
    }
}

} // verus!
