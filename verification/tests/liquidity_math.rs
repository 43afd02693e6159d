use pallet_dex::currency::{CurrencyId, TokenSymbol};
use pallet_dex::error::Error;
use pallet_dex::liquidity::{
    deposit_amounts, exchange_value, liquidity_to_mint, withdrawal_amounts,
};
use pallet_dex::traits::CurrencyPair;

const TOKEN_A: CurrencyId = CurrencyId::Token(TokenSymbol::Short(*b"AAAA"));
const TOKEN_B: CurrencyId = CurrencyId::Token(TokenSymbol::Short(*b"BBBB"));
const TOKEN_C: CurrencyId = CurrencyId::Token(TokenSymbol::Short(*b"CCCC"));

fn pair() -> CurrencyPair {
    CurrencyPair { token_a: TOKEN_A, token_b: TOKEN_B }
}

#[test]
fn exchange_value_follows_the_reserves() {
    // 50 of the first asset, with reserves of 200 and 100, is worth 25 of the second.
    assert_eq!(exchange_value(&pair(), TOKEN_A, 50, 200, 100), Ok(25));
    assert_eq!(exchange_value(&pair(), TOKEN_B, 50, 200, 100), Ok(100));
    assert_eq!(exchange_value(&pair(), TOKEN_A, 7, 3, 1), Ok(2));
}

#[test]
fn exchange_value_fails_for_a_foreign_asset_and_an_empty_reserve() {
    assert_eq!(exchange_value(&pair(), TOKEN_C, 50, 200, 100), Err(Error::InvalidAsset));
    assert_eq!(exchange_value(&pair(), TOKEN_A, 50, 0, 100), Err(Error::InvalidAmount));
    assert_eq!(exchange_value(&pair(), TOKEN_B, 50, 100, 0), Err(Error::InvalidAmount));
    assert_eq!(exchange_value(&pair(), TOKEN_A, u128::MAX, 1, 2), Err(Error::InvalidAmount));
    assert_eq!(exchange_value(&pair(), TOKEN_B, 50, 0, 100), Ok(0));
}

#[test]
fn first_deposit_takes_the_amount_of_both_assets() {
    assert_eq!(deposit_amounts(&pair(), TOKEN_A, 100, 0, 0), Ok((100, 100)));
    assert_eq!(deposit_amounts(&pair(), TOKEN_B, 100, 0, 0), Ok((100, 100)));
    assert_eq!(deposit_amounts(&pair(), TOKEN_C, 100, 0, 0), Err(Error::InvalidAsset));
}

#[test]
fn later_deposit_keeps_the_ratio() {
    assert_eq!(deposit_amounts(&pair(), TOKEN_A, 50, 200, 100), Ok((50, 25)));
    assert_eq!(deposit_amounts(&pair(), TOKEN_B, 50, 200, 100), Ok((100, 50)));
    assert_eq!(deposit_amounts(&pair(), TOKEN_C, 50, 200, 100), Err(Error::InvalidAsset));
    assert_eq!(deposit_amounts(&pair(), TOKEN_A, 50, 0, 100), Err(Error::InvalidAmount));
    assert_eq!(deposit_amounts(&pair(), TOKEN_B, 50, 0, 100), Ok((0, 50)));
}

#[test]
fn first_deposit_mints_the_square_root() {
    assert_eq!(liquidity_to_mint(100, 100, 0, 0, 0), Ok(100));
    assert_eq!(liquidity_to_mint(4, 9, 0, 0, 0), Ok(6));
    assert_eq!(liquidity_to_mint(2, 5, 0, 0, 0), Ok(3));
    // No liquidity token in issue, though the reserves are not empty.
    assert_eq!(liquidity_to_mint(4, 9, 10, 20, 0), Ok(6));
    // Both reserves empty, though liquidity tokens are in issue.
    assert_eq!(liquidity_to_mint(4, 9, 0, 0, 7), Ok(6));
    // The product is clamped.
    assert_eq!(liquidity_to_mint(u128::MAX, u128::MAX, 0, 0, 0), Ok(u64::MAX as u128));
}

#[test]
fn later_deposit_mints_the_smaller_share() {
    assert_eq!(liquidity_to_mint(50, 25, 200, 100, 100), Ok(25));
    assert_eq!(liquidity_to_mint(50, 10, 200, 100, 100), Ok(10));
    assert_eq!(liquidity_to_mint(10, 25, 200, 100, 100), Ok(5));
    assert_eq!(liquidity_to_mint(5, 5, 10, 10, 3), Ok(1));
    assert_eq!(liquidity_to_mint(0, 50, 0, 100, 100), Err(Error::InvalidAmount));
    assert_eq!(liquidity_to_mint(50, 0, 100, 0, 100), Err(Error::InvalidAmount));
}

#[test]
fn withdrawal_pays_the_share_of_each_reserve() {
    assert_eq!(withdrawal_amounts(25, 250, 125, 125), Ok((50, 25)));
    assert_eq!(withdrawal_amounts(1, 15, 15, 4), Ok((3, 3)));
    assert_eq!(withdrawal_amounts(100, 100, 100, 100), Ok((100, 100)));
}

#[test]
fn withdrawal_is_refused_without_supply_or_result() {
    assert_eq!(withdrawal_amounts(1, 15, 15, 0), Err(Error::WithdrawWithoutSupply));
    assert_eq!(withdrawal_amounts(0, 15, 15, 4), Err(Error::InvalidAmount));
    assert_eq!(withdrawal_amounts(1, 3, 15, 4), Err(Error::InvalidAmount));
    assert_eq!(withdrawal_amounts(1, 15, 3, 4), Err(Error::InvalidAmount));
    assert_eq!(withdrawal_amounts(2, u128::MAX, 15, 4), Err(Error::InvalidAmount));
}

#[test]
fn deposit_then_withdrawal_pays_no_more_than_was_deposited() {
    // Rounded: 5 of each asset mint 1 liquidity token, which pays out 3 of each.
    let minted = liquidity_to_mint(5, 5, 10, 10, 3).unwrap();
    assert_eq!(withdrawal_amounts(minted, 15, 15, 3 + minted), Ok((3, 3)));
    // Not rounded: all of the deposit comes back.
    let minted = liquidity_to_mint(50, 25, 200, 100, 100).unwrap();
    assert_eq!(withdrawal_amounts(minted, 250, 125, 100 + minted), Ok((50, 25)));
}
