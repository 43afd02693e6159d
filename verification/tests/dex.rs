use std::collections::HashMap;

use pallet_dex::currency::{CurrencyId, TokenSymbol};
use pallet_dex::error::Error;
use pallet_dex::fee::Fee;
use pallet_dex::ledger::{Balances, Instruction};
use pallet_dex::pallet::{Event, Outcome, Pallet};
use pallet_dex::traits::{CurrencyPair, Pool, PoolCreationParams};
use pallet_dex::types::{AccountId, Balance, PoolId};
use sp_arithmetic::Permill;

const ALICE: AccountId = [1; 32];
const BOB: AccountId = [2; 32];

const ASSET_1: CurrencyId = CurrencyId::Token(TokenSymbol::Short([0; 4]));
const ASSET_2: CurrencyId = CurrencyId::Token(TokenSymbol::Short([1; 4]));

const DEX_PALLET_ID: [u8; 8] = *b"dex_pall";

/// Default value for deviation of computation error
const DEFAULT_EPSILON: u128 = 5;

/// A ledger that keeps its balances in memory.
#[derive(Clone, Debug, PartialEq, Default)]
struct Tokens {
    free: HashMap<(AccountId, CurrencyId), Balance>,
    issued: HashMap<CurrencyId, Balance>,
}

impl Tokens {
    fn free_balance(&self, asset: CurrencyId, who: &AccountId) -> Balance {
        self.free.get(&(*who, asset)).copied().unwrap_or(0)
    }

    fn total_issuance(&self, asset: CurrencyId) -> Balance {
        self.issued.get(&asset).copied().unwrap_or(0)
    }

    fn deposit(&mut self, asset: CurrencyId, who: &AccountId, amount: Balance) -> Result<(), ()> {
        let balance = self.free_balance(asset, who).checked_add(amount).ok_or(())?;
        let issued = self.total_issuance(asset).checked_add(amount).ok_or(())?;
        self.free.insert((*who, asset), balance);
        self.issued.insert(asset, issued);
        Ok(())
    }

    fn withdraw(&mut self, asset: CurrencyId, who: &AccountId, amount: Balance) -> Result<(), ()> {
        let balance = self.free_balance(asset, who).checked_sub(amount).ok_or(())?;
        let issued = self.total_issuance(asset).checked_sub(amount).ok_or(())?;
        self.free.insert((*who, asset), balance);
        self.issued.insert(asset, issued);
        Ok(())
    }

    fn transfer(
        &mut self,
        asset: CurrencyId,
        from: &AccountId,
        to: &AccountId,
        amount: Balance,
    ) -> Result<(), ()> {
        let debited = self.free_balance(asset, from).checked_sub(amount).ok_or(())?;
        self.free.insert((*from, asset), debited);
        let credited = self.free_balance(asset, to).checked_add(amount).ok_or(())?;
        self.free.insert((*to, asset), credited);
        Ok(())
    }

    fn carry_out(&mut self, instruction: &Instruction) -> Result<(), ()> {
        match *instruction {
            Instruction::Transfer { asset, from, to, amount } => {
                self.transfer(asset, &from, &to, amount)
            },
            Instruction::Deposit { asset, who, amount } => self.deposit(asset, &who, amount),
            Instruction::Withdraw { asset, who, amount } => self.withdraw(asset, &who, amount),
        }
    }
}

/// What an operation can end in: a refusal by the exchange, or one by the ledger.
#[derive(Clone, Copy, Debug, PartialEq)]
enum DispatchError {
    Dex(Error),
    Ledger,
}

/// The exchange together with a ledger and the events published so far.
#[derive(Debug)]
struct Runtime {
    dex: Pallet,
    tokens: Tokens,
    events: Vec<Event>,
}

impl Runtime {
    fn balances(&self, pool_id: PoolId, who: &AccountId) -> Balances {
        match (self.dex.pools(pool_id), self.dex.pool_accounts(pool_id)) {
            (Some(pool), Some(account)) => Balances {
                reserve_a: self.tokens.free_balance(pool.pair.token_a, &account),
                reserve_b: self.tokens.free_balance(pool.pair.token_b, &account),
                total_issuance: self.tokens.total_issuance(pool.lp_token),
                user_a: self.tokens.free_balance(pool.pair.token_a, who),
                user_b: self.tokens.free_balance(pool.pair.token_b, who),
                user_lp: self.tokens.free_balance(pool.lp_token, who),
            },
            _ => Balances {
                reserve_a: 0,
                reserve_b: 0,
                total_issuance: 0,
                user_a: 0,
                user_b: 0,
                user_lp: 0,
            },
        }
    }

    /// Carries out all instructions of an outcome, or none of them.
    fn commit(&mut self, decided: Result<Outcome, Error>) -> Result<Event, DispatchError> {
        let outcome = decided.map_err(DispatchError::Dex)?;
        let mut tokens = self.tokens.clone();
        for instruction in outcome.instructions.iter() {
            tokens.carry_out(instruction).map_err(|_| DispatchError::Ledger)?;
        }
        self.tokens = tokens;
        self.events.push(outcome.event);
        Ok(outcome.event)
    }

    fn create_pool(&mut self, pool_params: PoolCreationParams) -> Result<(), DispatchError> {
        let decided = self.dex.create_pool(pool_params);
        self.commit(decided).map(|_| ())
    }

    fn add_liquidity(
        &mut self,
        who: AccountId,
        pool_id: PoolId,
        amount: Balance,
        asset: CurrencyId,
    ) -> Result<(), DispatchError> {
        let balances = self.balances(pool_id, &who);
        let decided = self.dex.add_liquidity(&who, pool_id, amount, asset, &balances);
        self.commit(decided).map(|_| ())
    }

    fn remove_liquidity(
        &mut self,
        who: AccountId,
        pool_id: PoolId,
        amount: Balance,
    ) -> Result<(), DispatchError> {
        let balances = self.balances(pool_id, &who);
        let decided = self.dex.remove_liquidity(&who, pool_id, amount, &balances);
        self.commit(decided).map(|_| ())
    }

    fn swap(
        &mut self,
        who: AccountId,
        pool_id: PoolId,
        pair: CurrencyPair,
        amount_b: Balance,
    ) -> Result<(), DispatchError> {
        let balances = self.balances(pool_id, &who);
        let decided = self.dex.swap(&who, pool_id, pair, amount_b, &balances);
        self.commit(decided).map(|_| ())
    }

    fn buy(
        &mut self,
        who: AccountId,
        pool_id: PoolId,
        asset_id: CurrencyId,
        amount: Balance,
    ) -> Result<(), DispatchError> {
        let balances = self.balances(pool_id, &who);
        let decided = self.dex.buy(&who, pool_id, asset_id, amount, &balances);
        self.commit(decided).map(|_| ())
    }

    fn sell(
        &mut self,
        who: AccountId,
        pool_id: PoolId,
        asset_id: CurrencyId,
        amount: Balance,
    ) -> Result<(), DispatchError> {
        let balances = self.balances(pool_id, &who);
        let decided = self.dex.sell(&who, pool_id, asset_id, amount, &balances);
        self.commit(decided).map(|_| ())
    }

    fn last_event(&self) -> Event {
        *self.events.last().expect("events expected")
    }
}

fn new_test_ext_multi_currency() -> Runtime {
    let base_balance = 1_000_000;
    let mut tokens = Tokens::default();
    tokens.deposit(ASSET_1, &ALICE, base_balance).unwrap();
    tokens.deposit(ASSET_2, &ALICE, base_balance).unwrap();
    tokens.deposit(ASSET_1, &BOB, base_balance).unwrap();
    Runtime { dex: Pallet::new(DEX_PALLET_ID), tokens, events: Vec::new() }
}

fn create_default_pool_params() -> PoolCreationParams {
    let owner: AccountId = ALICE;
    let first = ASSET_1;
    let second = ASSET_2;
    let pair = CurrencyPair { token_a: first, token_b: second };

    let fee = Fee::from_percent(3);

    PoolCreationParams { owner, pair, fee }
}

fn mul_ceil(fee: Fee, amount: u128) -> u128 {
    Permill::from_parts(fee.deconstruct()).mul_ceil(amount)
}

fn assert_with_computation_error(expected: u128, value: u128, epsilon: u128) -> Result<(), ()> {
    let lower = expected.saturating_sub(epsilon);
    let upper = expected.saturating_add(epsilon);

    if lower <= value && value <= upper {
        Ok(())
    } else {
        Err(())
    }
}

#[test]
fn create_pool_should_work() {
    let mut runtime = new_test_ext_multi_currency();
    let pool_params = create_default_pool_params();
    let _ = runtime.create_pool(pool_params);

    let pool: Pool = runtime.dex.pools(0).unwrap();
    assert_eq!(pool.pair, pool_params.pair);
    assert_eq!(pool.owner, pool_params.owner);
    assert_eq!(pool.fee, pool_params.fee);

    assert_eq!(runtime.dex.pool_count(), 1);

    assert!(matches!(
        runtime.last_event(),
        Event::PoolCreated { owner, pool_id, assets }
            if owner == ALICE && pool_id == 0 && assets == pool.pair
    ));
}

#[test]
fn add_liquidity_should_work() {
    let mut runtime = new_test_ext_multi_currency();
    let pool = create_default_pool_params();

    assert_eq!(runtime.create_pool(pool), Ok(()));

    let pool_id = 0;
    let pool = runtime.dex.pools(pool_id).unwrap();

    let user_balance_1_pre_deposit = runtime.tokens.free_balance(ASSET_1, &ALICE);
    let user_balance_2_pre_deposit = runtime.tokens.free_balance(ASSET_2, &ALICE);

    let pool_account = runtime.dex.pool_accounts(pool_id).unwrap();
    let pool_balance_1_pre_deposit = runtime.tokens.free_balance(ASSET_1, &pool_account);
    let pool_balance_2_pre_deposit = runtime.tokens.free_balance(ASSET_2, &pool_account);

    let amount = 100;
    let asset = ASSET_1;
    // Add liquidity to pool
    assert_eq!(runtime.add_liquidity(ALICE, pool_id, amount, asset), Ok(()));

    // Expect user balance to be reduced by amount
    assert_eq!(user_balance_1_pre_deposit - amount, runtime.tokens.free_balance(ASSET_1, &ALICE));
    assert_eq!(user_balance_2_pre_deposit - amount, runtime.tokens.free_balance(ASSET_2, &ALICE));
    // Expect pool balance to be increased by amount
    assert_eq!(
        pool_balance_1_pre_deposit + amount,
        runtime.tokens.free_balance(ASSET_1, &pool_account)
    );
    assert_eq!(
        pool_balance_2_pre_deposit + amount,
        runtime.tokens.free_balance(ASSET_2, &pool_account)
    );

    // LP of initial deposit will be sqrt(amount_a*amount_b)
    let expected_minted_lp = 100u128;
    // Expect Alice to now have 100 LP tokens
    assert_eq!(runtime.tokens.free_balance(pool.lp_token, &ALICE), expected_minted_lp);

    assert!(matches!(
        runtime.last_event(),
        Event::LiquidityAdded { who, pool_id: event_pool_id, amount_a, amount_b, minted_lp }
            if who == ALICE && event_pool_id == pool_id && amount_a == amount
                && amount_b == amount && minted_lp == expected_minted_lp
    ));
}

#[test]
fn add_liquidity_should_fail_with_invalid_asset() {
    let mut runtime = new_test_ext_multi_currency();
    let pool_params = create_default_pool_params();

    assert_eq!(runtime.create_pool(pool_params), Ok(()));
    let pool_id = 0;
    let amount = 100;
    let invalid_asset: CurrencyId = CurrencyId::Token(TokenSymbol::Short([u8::MAX; 4]));
    let tokens_before = runtime.tokens.clone();
    assert_eq!(
        runtime.add_liquidity(ALICE, pool_id, amount, invalid_asset),
        Err(DispatchError::Dex(Error::InvalidAsset))
    );
    assert_eq!(runtime.tokens, tokens_before);
}

#[test]
fn add_liquidity_should_fail_without_balance() {
    let mut runtime = new_test_ext_multi_currency();
    let mut pool_params = create_default_pool_params();
    // Use asset in pair that the user has no balance for
    let asset_without_balance: CurrencyId = CurrencyId::Token(TokenSymbol::Short([u8::MAX; 4]));
    pool_params.pair.token_a = asset_without_balance;

    assert_eq!(runtime.create_pool(pool_params), Ok(()));
    let pool_id = 0;
    let amount = 100;
    let tokens_before = runtime.tokens.clone();
    assert_eq!(
        runtime.add_liquidity(ALICE, pool_id, amount, asset_without_balance),
        Err(DispatchError::Dex(Error::InsufficientBalance))
    );
    assert_eq!(runtime.tokens, tokens_before);
}

#[test]
fn remove_liquidity_with_too_high_amount_should_fail() {
    let mut runtime = new_test_ext_multi_currency();
    let pool = create_default_pool_params();

    assert_eq!(runtime.create_pool(pool), Ok(()));
    let pool_id = 0;
    let amount = 100;
    let asset = ASSET_1;
    assert_eq!(runtime.add_liquidity(ALICE, pool_id, amount, asset), Ok(()));

    let pool_id = 0;
    let amount = 10_000;
    let tokens_before = runtime.tokens.clone();
    assert_eq!(
        runtime.remove_liquidity(ALICE, pool_id, amount),
        Err(DispatchError::Dex(Error::InsufficientLiquidityBalance))
    );
    assert_eq!(runtime.tokens, tokens_before);
}

#[test]
fn remove_liquidity_without_supply_should_fail() {
    let mut runtime = new_test_ext_multi_currency();
    let pool = create_default_pool_params();

    assert_eq!(runtime.create_pool(pool), Ok(()));

    let pool_id = 0;
    let amount = 100;
    let tokens_before = runtime.tokens.clone();
    assert_eq!(
        runtime.remove_liquidity(ALICE, pool_id, amount),
        Err(DispatchError::Dex(Error::WithdrawWithoutSupply))
    );
    assert_eq!(runtime.tokens, tokens_before);
}

#[test]
fn add_and_remove_liquidity_should_work() {
    let mut runtime = new_test_ext_multi_currency();
    let pool_params = create_default_pool_params();

    assert_eq!(runtime.create_pool(pool_params), Ok(()));
    // pool_id will be 0
    let pool_id = 0;

    let pool: Pool = runtime.dex.pools(pool_id).unwrap();

    let user_balance_1_pre_deposit = runtime.tokens.free_balance(ASSET_1, &ALICE);
    let user_balance_2_pre_deposit = runtime.tokens.free_balance(ASSET_2, &ALICE);

    let pool_account = runtime.dex.pool_accounts(pool_id).unwrap();
    let pool_balance_1_pre_deposit = runtime.tokens.free_balance(ASSET_1, &pool_account);
    let pool_balance_2_pre_deposit = runtime.tokens.free_balance(ASSET_2, &pool_account);

    let amount = 100;
    let asset = ASSET_1;
    assert_eq!(runtime.add_liquidity(ALICE, pool_id, amount, asset), Ok(()));

    // Expect user balance to be reduced by amount
    assert_eq!(user_balance_1_pre_deposit - amount, runtime.tokens.free_balance(ASSET_1, &ALICE));
    assert_eq!(user_balance_2_pre_deposit - amount, runtime.tokens.free_balance(ASSET_2, &ALICE));
    // Expect pool balance to be increased by amount
    assert_eq!(
        pool_balance_1_pre_deposit + amount,
        runtime.tokens.free_balance(ASSET_1, &pool_account)
    );
    assert_eq!(
        pool_balance_2_pre_deposit + amount,
        runtime.tokens.free_balance(ASSET_2, &pool_account)
    );

    // LP of initial deposit will be sqrt(amount_a*amount_b) -> sqrt(100*100) = 100
    let expected_minted_lp = 100u128;
    // Expect Alice to now have 100 LP tokens
    assert_eq!(runtime.tokens.free_balance(pool.lp_token, &ALICE), expected_minted_lp);

    assert!(matches!(
        runtime.last_event(),
        Event::LiquidityAdded { who, pool_id: event_pool_id, amount_a, amount_b, minted_lp }
            if who == ALICE && event_pool_id == pool_id && amount_a == amount
                && amount_b == amount && minted_lp == expected_minted_lp
    ));

    // Withdraw all LP
    let user_balance_1_pre_withdraw = runtime.tokens.free_balance(ASSET_1, &ALICE);
    let user_balance_2_pre_withdraw = runtime.tokens.free_balance(ASSET_2, &ALICE);

    let pool_balance_1_pre_withdraw = runtime.tokens.free_balance(ASSET_1, &pool_account);
    let pool_balance_2_pre_withdraw = runtime.tokens.free_balance(ASSET_2, &pool_account);

    let amount = expected_minted_lp;
    assert_eq!(runtime.remove_liquidity(ALICE, pool_id, amount), Ok(()));

    // The received amount of the other tokens happens to be the same as the minted LP
    let expected_amount_a = amount;
    let expected_amount_b = amount;
    assert_eq!(
        user_balance_1_pre_withdraw + expected_amount_a,
        runtime.tokens.free_balance(ASSET_1, &ALICE)
    );
    assert_eq!(
        user_balance_2_pre_withdraw + expected_amount_b,
        runtime.tokens.free_balance(ASSET_2, &ALICE)
    );
    // Expect pools balance to be reduced by amount
    assert_eq!(
        pool_balance_1_pre_withdraw - expected_amount_a,
        runtime.tokens.free_balance(ASSET_1, &pool_account)
    );
    assert_eq!(
        pool_balance_2_pre_withdraw - expected_amount_b,
        runtime.tokens.free_balance(ASSET_2, &pool_account)
    );

    assert!(matches!(
        runtime.last_event(),
        Event::LiquidityRemoved { who, pool_id: event_pool_id, amount_a, amount_b, total_issuance }
            if who == ALICE && event_pool_id == pool_id && amount_a == expected_amount_a
                && amount_b == expected_amount_b && total_issuance == 0
    ));
    assert_eq!(runtime.tokens.total_issuance(pool.lp_token), 0);
}

#[test]
fn sell_should_work() {
    let mut runtime = new_test_ext_multi_currency();
    let pool_params = create_default_pool_params();
    assert_eq!(runtime.create_pool(pool_params), Ok(()));

    // Add liquidity to pool
    let pool_id = 0;
    let amount = 100_000;
    let asset = ASSET_1;
    assert_eq!(runtime.add_liquidity(ALICE, pool_id, amount, asset), Ok(()));

    let balance_1_pre_swap = runtime.tokens.free_balance(ASSET_1, &ALICE);
    let balance_2_pre_swap = runtime.tokens.free_balance(ASSET_2, &ALICE);

    let asset = ASSET_1;
    let amount_to_sell = 100;
    assert_eq!(runtime.sell(ALICE, pool_id, asset, amount_to_sell), Ok(()));

    // Expect to spend `amount_to_sell` tokens of token_a
    assert_eq!(balance_1_pre_swap - amount_to_sell, runtime.tokens.free_balance(ASSET_1, &ALICE));

    // Expect to receive roughly `amount_to_sell` - fee tokens of token_b
    let amount_to_receive: u128 = amount_to_sell - mul_ceil(pool_params.fee, amount_to_sell);
    assert_eq!(amount_to_receive, 97);
    assert_eq!(
        assert_with_computation_error(
            balance_2_pre_swap + amount_to_receive,
            runtime.tokens.free_balance(ASSET_2, &ALICE),
            DEFAULT_EPSILON,
        ),
        Ok(())
    );

    // Expect the pool to have more of ASSET_1 because the user swapped ASSET_1 for ASSET_2
    let pool_account = runtime.dex.pool_accounts(pool_id).unwrap();
    assert!(
        runtime.tokens.free_balance(ASSET_1, &pool_account)
            > runtime.tokens.free_balance(ASSET_2, &pool_account)
    );

    assert!(matches!(
        runtime.last_event(),
        Event::Swapped { who, pool_id: event_pool_id, amount_a: _, amount_b, token_a, token_b, fee }
            if who == ALICE && event_pool_id == pool_id && amount_b == amount_to_sell
                && token_a == ASSET_2 && token_b == ASSET_1 && fee == pool_params.fee
    ));
}

#[test]
fn buy_should_work() {
    let mut runtime = new_test_ext_multi_currency();
    let pool_params = create_default_pool_params();
    assert_eq!(runtime.create_pool(pool_params), Ok(()));

    // Add liquidity to pool
    let pool_id = 0;
    let amount = 100_000;
    let asset = ASSET_1;
    assert_eq!(runtime.add_liquidity(ALICE, pool_id, amount, asset), Ok(()));

    let balance_1_pre_swap = runtime.tokens.free_balance(ASSET_1, &ALICE);
    let balance_2_pre_swap = runtime.tokens.free_balance(ASSET_2, &ALICE);

    let asset = ASSET_1;
    let amount_to_receive = 100;
    assert_eq!(runtime.buy(ALICE, pool_id, asset, amount_to_receive), Ok(()));

    // Expect to receive `amount_to_receive` tokens of token_a
    assert_eq!(
        balance_1_pre_swap + amount_to_receive,
        runtime.tokens.free_balance(ASSET_1, &ALICE)
    );

    // Expect to spend roughly `amount_to_sell` + fee tokens of token_b
    let amount_to_sell: u128 = amount_to_receive + mul_ceil(pool_params.fee, amount_to_receive);
    assert_eq!(
        assert_with_computation_error(
            balance_2_pre_swap - amount_to_sell,
            runtime.tokens.free_balance(ASSET_2, &ALICE),
            DEFAULT_EPSILON
        ),
        Ok(())
    );

    // Expect the pool to have more of ASSET_2 because the user swapped ASSET_2 for ASSET_1
    let pool_account = runtime.dex.pool_accounts(pool_id).unwrap();
    assert!(
        runtime.tokens.free_balance(ASSET_2, &pool_account)
            > runtime.tokens.free_balance(ASSET_1, &pool_account)
    );

    assert!(matches!(
        runtime.last_event(),
        Event::Swapped { who, pool_id: event_pool_id, amount_a, amount_b: _, token_a, token_b, fee }
            if who == ALICE && event_pool_id == pool_id && amount_a == amount_to_receive
                && token_a == ASSET_1 && token_b == ASSET_2 && fee == pool_params.fee
    ));
}

#[test]
fn swaps_do_not_lower_the_constant_product() {
    let mut runtime = new_test_ext_multi_currency();
    assert_eq!(runtime.create_pool(create_default_pool_params()), Ok(()));
    let pool_id = 0;
    assert_eq!(runtime.add_liquidity(ALICE, pool_id, 100_000, ASSET_1), Ok(()));
    let pool_account = runtime.dex.pool_accounts(pool_id).unwrap();
    let pair = CurrencyPair { token_a: ASSET_1, token_b: ASSET_2 };
    let mut product = 100_000u128 * 100_000;
    for step in 1..40u128 {
        let amount = step * 137;
        let done = match step % 4 {
            0 => runtime.swap(ALICE, pool_id, pair, amount),
            1 => runtime.swap(ALICE, pool_id, pair.swap(), amount),
            2 => runtime.buy(ALICE, pool_id, ASSET_2, amount),
            _ => runtime.sell(ALICE, pool_id, ASSET_2, amount),
        };
        assert_eq!(done, Ok(()));
        let after = runtime.tokens.free_balance(ASSET_1, &pool_account)
            * runtime.tokens.free_balance(ASSET_2, &pool_account);
        assert!(after > product);
        product = after;
    }
}

#[test]
fn buy_delivers_at_least_what_was_asked_for() {
    let mut runtime = new_test_ext_multi_currency();
    assert_eq!(runtime.create_pool(create_default_pool_params()), Ok(()));
    let pool_id = 0;
    assert_eq!(runtime.add_liquidity(ALICE, pool_id, 100_000, ASSET_1), Ok(()));
    assert_eq!(runtime.sell(ALICE, pool_id, ASSET_1, 50_000), Ok(()));
    for amount in [1u128, 2, 10, 999, 12_345] {
        let before = runtime.tokens.free_balance(ASSET_2, &ALICE);
        assert_eq!(runtime.buy(ALICE, pool_id, ASSET_2, amount), Ok(()));
        assert!(runtime.tokens.free_balance(ASSET_2, &ALICE) >= before + amount);
    }
}

#[test]
fn swap_without_funds_is_refused_by_the_ledger() {
    let mut runtime = new_test_ext_multi_currency();
    assert_eq!(runtime.create_pool(create_default_pool_params()), Ok(()));
    let pool_id = 0;
    assert_eq!(runtime.add_liquidity(ALICE, pool_id, 100_000, ASSET_1), Ok(()));
    let tokens_before = runtime.tokens.clone();
    let events_before = runtime.events.len();
    // Bob holds nothing of the second asset.
    assert_eq!(runtime.sell(BOB, pool_id, ASSET_2, 100), Err(DispatchError::Ledger));
    assert_eq!(runtime.tokens, tokens_before);
    assert_eq!(runtime.events.len(), events_before);
    // He does hold the first.
    assert_eq!(runtime.sell(BOB, pool_id, ASSET_1, 100), Ok(()));
    assert_eq!(runtime.tokens.free_balance(ASSET_2, &BOB), 96);
}

#[test]
fn pools_do_not_touch_each_other_in_the_ledger() {
    let mut runtime = new_test_ext_multi_currency();
    let asset_3 = CurrencyId::Token(TokenSymbol::Short([3; 4]));
    runtime.tokens.deposit(asset_3, &ALICE, 1_000_000).unwrap();
    assert_eq!(runtime.create_pool(create_default_pool_params()), Ok(()));
    let mut other_params = create_default_pool_params();
    other_params.pair.token_a = asset_3;
    assert_eq!(runtime.create_pool(other_params), Ok(()));
    assert_eq!(runtime.add_liquidity(ALICE, 1, 5_000, ASSET_2), Ok(()));

    let other = runtime.dex.pools(1).unwrap();
    let other_account = runtime.dex.pool_accounts(1).unwrap();
    let other_reserves = (
        runtime.tokens.free_balance(asset_3, &other_account),
        runtime.tokens.free_balance(ASSET_2, &other_account),
    );
    assert_eq!(other_reserves, (5_000, 5_000));
    let other_issuance = runtime.tokens.total_issuance(other.lp_token);

    assert_eq!(runtime.add_liquidity(ALICE, 0, 100_000, ASSET_1), Ok(()));
    assert_eq!(runtime.sell(ALICE, 0, ASSET_2, 700), Ok(()));
    assert_eq!(runtime.buy(BOB, 0, ASSET_2, 300), Ok(()));
    assert_eq!(runtime.remove_liquidity(ALICE, 0, 40_000), Ok(()));

    assert_eq!(runtime.dex.pools(1), Some(other));
    assert_eq!(
        (
            runtime.tokens.free_balance(asset_3, &other_account),
            runtime.tokens.free_balance(ASSET_2, &other_account),
        ),
        other_reserves
    );
    assert_eq!(runtime.tokens.total_issuance(other.lp_token), other_issuance);
}

#[test]
fn later_deposit_and_withdrawal_give_back_what_was_deposited() {
    let mut runtime = new_test_ext_multi_currency();
    assert_eq!(runtime.create_pool(create_default_pool_params()), Ok(()));
    let pool_id = 0;
    let pool = runtime.dex.pools(pool_id).unwrap();
    assert_eq!(runtime.add_liquidity(ALICE, pool_id, 100_000, ASSET_1), Ok(()));
    runtime.tokens.deposit(ASSET_2, &BOB, 1_000_000).unwrap();
    let before = (
        runtime.tokens.free_balance(ASSET_1, &BOB),
        runtime.tokens.free_balance(ASSET_2, &BOB),
    );
    assert_eq!(runtime.add_liquidity(BOB, pool_id, 4_321, ASSET_2), Ok(()));
    let minted = runtime.tokens.free_balance(pool.lp_token, &BOB);
    assert_eq!(minted, 4_321);
    assert_eq!(runtime.remove_liquidity(BOB, pool_id, minted), Ok(()));
    assert_eq!(
        (runtime.tokens.free_balance(ASSET_1, &BOB), runtime.tokens.free_balance(ASSET_2, &BOB)),
        before
    );
    assert_eq!(runtime.tokens.free_balance(pool.lp_token, &BOB), 0);
}
