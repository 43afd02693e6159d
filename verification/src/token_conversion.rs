//! The liquidity token of a pair of tokens: the long symbol made of the two
//! short symbols, one after the other.

use vstd::prelude::*;
use crate::currency::{CurrencyId, LongSymbol, ShortSymbol, TokenSymbol};
use sp_runtime::traits::LookupError;

verus! {

/// `sp_runtime::traits::LookupError`, the failure of a lookup. It carries
/// nothing.
#[verifier::external_type_specification]
#[verifier::external_body]
pub struct ExLookupError(LookupError);

/// Makes the `sp_runtime::traits::LookupError`.
#[verifier::external_body]
fn to_look_up_error() -> LookupError {
    LookupError
}

/// Conversion between a pair of plain tokens and their liquidity token.
pub struct CurrencyConversion;

/// Whether `currency` is a token with a short symbol.
pub open spec fn is_short_token(currency: CurrencyId) -> bool {
    currency matches CurrencyId::Token(TokenSymbol::Short(_))
}

/// Whether `currency` is a token with a long symbol.
pub open spec fn is_long_token(currency: CurrencyId) -> bool {
    currency matches CurrencyId::Token(TokenSymbol::Long(_))
}

/// Whether `long` is what `unlookup` makes of `(currency_a, currency_b)`: for
/// two tokens with short symbols the token whose long symbol holds the bytes
/// of the first and then those of the second; for anything else the native
/// currency.
pub open spec fn is_unlookup(currency_a: CurrencyId, currency_b: CurrencyId, long: CurrencyId) -> bool {
    match (currency_a, currency_b) {
        (
            CurrencyId::Token(TokenSymbol::Short(short_a)),
            CurrencyId::Token(TokenSymbol::Short(short_b)),
        ) => long matches CurrencyId::Token(TokenSymbol::Long(symbol)) && symbol@ == short_a@
            + short_b@,
        _ => long == CurrencyId::Native,
    }
}

/// Whether `(currency_a, currency_b)` is what `lookup` makes of a token
/// `long` with a long symbol: the tokens whose short symbols are its first
/// and its last four bytes.
pub open spec fn is_lookup(long: CurrencyId, currency_a: CurrencyId, currency_b: CurrencyId) -> bool {
    match (long, currency_a, currency_b) {
        (
            CurrencyId::Token(TokenSymbol::Long(symbol)),
            CurrencyId::Token(TokenSymbol::Short(short_a)),
            CurrencyId::Token(TokenSymbol::Short(short_b)),
        ) => short_a@ == symbol@.subrange(0, 4) && short_b@ == symbol@.subrange(4, 8),
        _ => false,
    }
}

impl CurrencyConversion {
    /// The two plain tokens that a liquidity token was made of. Fails for
    /// anything but a token with a long symbol.
    pub fn lookup(currency: CurrencyId) -> (r: Result<(CurrencyId, CurrencyId), LookupError>)
        ensures
            r is Ok <==> is_long_token(currency),
            r matches Ok((currency_a, currency_b)) ==> is_lookup(currency, currency_a, currency_b),
    {
        if let CurrencyId::Token(TokenSymbol::Long(long_symbol)) = currency {
            let short_symbol_a: ShortSymbol = [
                long_symbol[0],
                long_symbol[1],
                long_symbol[2],
                long_symbol[3],
            ];
            let short_symbol_b: ShortSymbol = [
                long_symbol[4],
                long_symbol[5],
                long_symbol[6],
                long_symbol[7],
            ];
            proof {
                assert(short_symbol_a@ =~= long_symbol@.subrange(0, 4));
                assert(short_symbol_b@ =~= long_symbol@.subrange(4, 8));
            }
            Ok(
                (
                    CurrencyId::Token(TokenSymbol::Short(short_symbol_a)),
                    CurrencyId::Token(TokenSymbol::Short(short_symbol_b)),
                ),
            )
        } else {
            Err(to_look_up_error())
        }
    }

    /// The liquidity token of two plain tokens; the native currency where
    /// either of the two is not a token with a short symbol.
    pub fn unlookup(pair: (CurrencyId, CurrencyId)) -> (long: CurrencyId)
        ensures
            is_unlookup(pair.0, pair.1, long),
    {
        let (currency_a, currency_b) = pair;
        if let (
            CurrencyId::Token(TokenSymbol::Short(short_symbol_a)),
            CurrencyId::Token(TokenSymbol::Short(short_symbol_b)),
        ) = (currency_a, currency_b) {
            let long: LongSymbol = [
                short_symbol_a[0],
                short_symbol_a[1],
                short_symbol_a[2],
                short_symbol_a[3],
                short_symbol_b[0],
                short_symbol_b[1],
                short_symbol_b[2],
                short_symbol_b[3],
            ];
            proof {
                assert(long@ =~= short_symbol_a@ + short_symbol_b@);
            }
            CurrencyId::Token(TokenSymbol::Long(long))
        } else {
            CurrencyId::Native
        }
    }
}

/// The liquidity token of a pair is determined by the pair.
pub proof fn lemma_unlookup_is_a_function(
    currency_a: CurrencyId,
    currency_b: CurrencyId,
    long: CurrencyId,
    other: CurrencyId,
)
    requires
        is_unlookup(currency_a, currency_b, long),
        is_unlookup(currency_a, currency_b, other),
    ensures
        long == other,
{
    if is_short_token(currency_a) && is_short_token(currency_b) {
        let x = long->Token_0->Long_0;
        let y = other->Token_0->Long_0;
        assert(x@ == y@);
        assert(x =~= y);
    }
}

/// The conversion can be undone: looking up the liquidity token of two plain
/// tokens gives the two tokens back, in their order.
pub proof fn lemma_lookup_inverts_unlookup(
    currency_a: CurrencyId,
    currency_b: CurrencyId,
    long: CurrencyId,
    found_a: CurrencyId,
    found_b: CurrencyId,
)
    requires
        is_short_token(currency_a),
        is_short_token(currency_b),
        is_unlookup(currency_a, currency_b, long),
        is_lookup(long, found_a, found_b),
    ensures
        found_a == currency_a,
        found_b == currency_b,
{
    let a = currency_a->Token_0->Short_0;
    let b = currency_b->Token_0->Short_0;
    let fa = found_a->Token_0->Short_0;
    let fb = found_b->Token_0->Short_0;
    let symbol = long->Token_0->Long_0;
    assert((a@ + b@).subrange(0, 4) =~= a@);
    assert((a@ + b@).subrange(4, 8) =~= b@);
    assert(fa =~= a);
    assert(fb =~= b);
}

/// Different pairs of plain tokens have different liquidity tokens.
pub proof fn lemma_unlookup_is_injective(
    currency_a: CurrencyId,
    currency_b: CurrencyId,
    other_a: CurrencyId,
    other_b: CurrencyId,
    long: CurrencyId,
)
    requires
        is_short_token(currency_a),
        is_short_token(currency_b),
        is_short_token(other_a),
        is_short_token(other_b),
        is_unlookup(currency_a, currency_b, long),
        is_unlookup(other_a, other_b, long),
    ensures
        currency_a == other_a,
        currency_b == other_b,
{
    let a = currency_a->Token_0->Short_0;
    let b = currency_b->Token_0->Short_0;
    let c = other_a->Token_0->Short_0;
    let d = other_b->Token_0->Short_0;
    assert((a@ + b@).subrange(0, 4) =~= a@);
    assert((a@ + b@).subrange(4, 8) =~= b@);
    assert((c@ + d@).subrange(0, 4) =~= c@);
    assert((c@ + d@).subrange(4, 8) =~= d@);
    assert(a =~= c);
    assert(b =~= d);
}

} // verus!
