//! The asset ledger as the exchange sees it: the balances that it reports
//! before an operation, and the instructions that it is given after one.

use vstd::prelude::*;
use crate::currency::CurrencyId;
use crate::traits::CurrencyPair;
use crate::types::{AccountId, Balance};

verus! {

/// What the ledger reports of one pool and one caller.
#[derive(Clone, Copy, Debug, PartialEq, Eq)]
pub struct Balances {
    /// The free balance of the pool's first asset in its custody account.
    pub reserve_a: Balance,
    /// The free balance of the pool's second asset in its custody account.
    pub reserve_b: Balance,
    /// The total issuance of the pool's liquidity token.
    pub total_issuance: Balance,
    /// The caller's free balance of the pool's first asset.
    pub user_a: Balance,
    /// The caller's free balance of the pool's second asset.
    pub user_b: Balance,
    /// The caller's free balance of the pool's liquidity token.
    pub user_lp: Balance,
}

/// One instruction to the ledger. The ledger carries each out whole or
/// refuses it, and the instructions of one operation stand or fall together.
#[derive(Clone, Copy, Debug, PartialEq, Eq)]
pub enum Instruction {
    /// Move `amount` of `asset` from the free balance of `from` to `to`.
    Transfer { asset: CurrencyId, from: AccountId, to: AccountId, amount: Balance },
    /// Mint `amount` of `asset` into the free balance of `who`.
    Deposit { asset: CurrencyId, who: AccountId, amount: Balance },
    /// Burn `amount` of `asset` from the free balance of `who`.
    Withdraw { asset: CurrencyId, who: AccountId, amount: Balance },
}

impl Balances {
    /// The reserve of `asset` in a pool of `pair`: the first reserve for the
    /// first asset of the pair, the second reserve for any other.
    pub open spec fn spec_reserve_of(self, pair: CurrencyPair, asset: CurrencyId) -> Balance {
        if asset == pair.token_a {
            self.reserve_a
        } else {
            self.reserve_b
        }
    }

    /// The reserve of `asset` in a pool of `pair`.
    pub fn reserve_of(&self, pair: &CurrencyPair, asset: CurrencyId) -> (r: Balance)
        ensures
            r == self.spec_reserve_of(*pair, asset),
    {
        if asset == pair.token_a {
            self.reserve_a
        } else {
            self.reserve_b
        }
    }
}


/// The ledger as the laws of the exchange see it: the free balance of every
/// account in every asset, and the issuance of every asset. An instruction is
/// refused where the account to be debited holds less than the amount, and
/// for nothing else.
pub struct LedgerModel {
    pub free: Map<(AccountId, CurrencyId), int>,
    pub issued: Map<CurrencyId, int>,
}

impl LedgerModel {
    /// The free balance of `who` in `asset`.
    pub open spec fn free_balance(self, asset: CurrencyId, who: AccountId) -> int {
        if self.free.contains_key((who, asset)) {
            self.free[(who, asset)]
        } else {
            0
        }
    }

    /// The issuance of `asset`.
    pub open spec fn total_issuance(self, asset: CurrencyId) -> int {
        if self.issued.contains_key(asset) {
            self.issued[asset]
        } else {
            0
        }
    }

    /// The ledger with `amount` added to the free balance of `who` in `asset`.
    pub open spec fn credit(self, asset: CurrencyId, who: AccountId, amount: int) -> LedgerModel {
        LedgerModel {
            free: self.free.insert((who, asset), self.free_balance(asset, who) + amount),
            issued: self.issued,
        }
    }

    /// The ledger with `amount` added to the issuance of `asset`.
    pub open spec fn issue(self, asset: CurrencyId, amount: int) -> LedgerModel {
        LedgerModel {
            free: self.free,
            issued: self.issued.insert(asset, self.total_issuance(asset) + amount),
        }
    }

    /// The ledger after one instruction, where it is carried out.
    pub open spec fn apply(self, instruction: Instruction) -> Option<LedgerModel> {
        match instruction {
            Instruction::Transfer { asset, from, to, amount } => if self.free_balance(asset, from)
                < amount {
                None
            } else {
                Some(self.credit(asset, from, -amount).credit(asset, to, amount as int))
            },
            Instruction::Deposit { asset, who, amount } => Some(
                self.credit(asset, who, amount as int).issue(asset, amount as int),
            ),
            Instruction::Withdraw { asset, who, amount } => if self.free_balance(asset, who)
                < amount {
                None
            } else {
                Some(self.credit(asset, who, -amount).issue(asset, -amount))
            },
        }
    }

    /// The ledger after a run of instructions, where all are carried out.
    pub open spec fn apply_all(self, instructions: Seq<Instruction>) -> Option<LedgerModel>
        decreases instructions.len(),
    {
        if instructions.len() == 0 {
            Some(self)
        } else {
            match self.apply(instructions.first()) {
                None => None,
                Some(next) => next.apply_all(instructions.drop_first()),
            }
        }
    }

    /// Whether no free balance is below zero.
    pub open spec fn solvent(self) -> bool {
        forall|asset: CurrencyId, who: AccountId| 0 <= #[trigger] self.free_balance(asset, who)
    }

    /// Whether `balances` is what this ledger reports of the pool with the
    /// given pair, liquidity token and custody account, and of the caller
    /// `who`.
    pub open spec fn reports(
        self,
        pair: CurrencyPair,
        lp_token: CurrencyId,
        custody: AccountId,
        who: AccountId,
        balances: Balances,
    ) -> bool {
        &&& balances.reserve_a == self.free_balance(pair.token_a, custody)
        &&& balances.reserve_b == self.free_balance(pair.token_b, custody)
        &&& balances.total_issuance == self.total_issuance(lp_token)
        &&& balances.user_a == self.free_balance(pair.token_a, who)
        &&& balances.user_b == self.free_balance(pair.token_b, who)
        &&& balances.user_lp == self.free_balance(lp_token, who)
    }
}

impl Instruction {
    /// Whether the instruction touches no account but `x` and `y`.
    pub open spec fn stays_between(self, x: AccountId, y: AccountId) -> bool {
        match self {
            Instruction::Transfer { from, to, .. } => (from == x || from == y) && (to == x || to
                == y),
            Instruction::Deposit { who, .. } => who == x || who == y,
            Instruction::Withdraw { who, .. } => who == x || who == y,
        }
    }

    /// The asset that the instruction is about.
    pub open spec fn asset(self) -> CurrencyId {
        match self {
            Instruction::Transfer { asset, .. } => asset,
            Instruction::Deposit { asset, .. } => asset,
            Instruction::Withdraw { asset, .. } => asset,
        }
    }

    /// Whether the instruction leaves every issuance as it is.
    pub open spec fn is_transfer(self) -> bool {
        self is Transfer
    }
}

/// A refused debit is the only way in which a balance could fall below zero:
/// a ledger without a balance below zero has none after an instruction.
pub proof fn lemma_apply_keeps_solvent(ledger: LedgerModel, instruction: Instruction)
    requires
        ledger.solvent(),
    ensures
        ledger.apply(instruction) matches Some(after) ==> after.solvent(),
{
    if let Some(after) = ledger.apply(instruction) {
        assert forall|asset: CurrencyId, who: AccountId| 0 <= #[trigger] after.free_balance(
            asset,
            who,
        ) by {
            assert(0 <= ledger.free_balance(asset, who));
            lemma_apply_changes(ledger, instruction, asset, who);
        }
    }
}

/// What one instruction does to one balance: a transfer takes the amount
/// from the sender and gives it to the receiver, a deposit gives, a
/// withdrawal takes; no other balance changes.
pub proof fn lemma_apply_changes(
    ledger: LedgerModel,
    instruction: Instruction,
    asset: CurrencyId,
    who: AccountId,
)
    ensures
        ledger.apply(instruction) matches Some(after) ==> after.free_balance(asset, who)
            == ledger.free_balance(asset, who) + (match instruction {
            Instruction::Transfer { asset: moved, from, to, amount } => (if moved == asset && to
                == who {
                amount as int
            } else {
                0
            }) - (if moved == asset && from == who {
                amount as int
            } else {
                0
            }),
            Instruction::Deposit { asset: minted, who: to, amount } => if minted == asset && to
                == who {
                amount as int
            } else {
                0
            },
            Instruction::Withdraw { asset: burned, who: from, amount } => if burned == asset
                && from == who {
                -amount
            } else {
                0
            },
        }),
        ledger.apply(instruction) matches Some(after) ==> (match instruction {
            Instruction::Transfer { from, amount, asset: moved, .. } => ledger.free_balance(
                moved,
                from,
            ) >= amount,
            Instruction::Deposit { .. } => true,
            Instruction::Withdraw { who: from, amount, asset: burned } => ledger.free_balance(
                burned,
                from,
            ) >= amount,
        }),
{
}

/// What one instruction does to one issuance: a deposit adds the amount to
/// the issuance of its asset, a withdrawal takes it off; no other issuance
/// changes.
pub proof fn lemma_apply_issues(ledger: LedgerModel, instruction: Instruction, asset: CurrencyId)
    ensures
        ledger.apply(instruction) matches Some(after) ==> after.total_issuance(asset)
            == ledger.total_issuance(asset) + (match instruction {
            Instruction::Transfer { .. } => 0,
            Instruction::Deposit { asset: minted, amount, .. } => if minted == asset {
                amount as int
            } else {
                0
            },
            Instruction::Withdraw { asset: burned, amount, .. } => if burned == asset {
                -amount
            } else {
                0
            },
        }),
{
}

/// No balance falls below zero, whatever the instructions: a ledger without
/// a balance below zero either refuses a run of instructions or has none
/// after it.
pub proof fn lemma_apply_all_keeps_solvent(ledger: LedgerModel, instructions: Seq<Instruction>)
    requires
        ledger.solvent(),
    ensures
        ledger.apply_all(instructions) matches Some(after) ==> after.solvent(),
    decreases instructions.len(),
{
    if instructions.len() > 0 {
        lemma_apply_keeps_solvent(ledger, instructions.first());
        if let Some(next) = ledger.apply(instructions.first()) {
            lemma_apply_all_keeps_solvent(next, instructions.drop_first());
        }
    }
}

/// Instructions that stay between two accounts leave the balances of every
/// other account as they are.
pub proof fn lemma_apply_all_leaves_others(
    ledger: LedgerModel,
    instructions: Seq<Instruction>,
    x: AccountId,
    y: AccountId,
    asset: CurrencyId,
    other: AccountId,
)
    requires
        forall|i: int| 0 <= i < instructions.len() ==> (#[trigger] instructions[i]).stays_between(x, y),
        other != x,
        other != y,
    ensures
        ledger.apply_all(instructions) matches Some(after) ==> after.free_balance(asset, other)
            == ledger.free_balance(asset, other),
    decreases instructions.len(),
{
    if instructions.len() > 0 {
        let first = instructions.first();
        assert(first == instructions[0]);
        assert(first.stays_between(x, y));
        lemma_apply_changes(ledger, first, asset, other);
        if let Some(next) = ledger.apply(first) {
            assert forall|i: int| 0 <= i < instructions.drop_first().len() implies (
            #[trigger] instructions.drop_first()[i]).stays_between(x, y) by {
                assert(instructions.drop_first()[i] == instructions[i + 1]);
            }
            lemma_apply_all_leaves_others(next, instructions.drop_first(), x, y, asset, other);
        }
    }
}

/// Instructions leave the issuance of every asset as it is but that of the
/// assets they mint or burn.
pub proof fn lemma_apply_all_leaves_issuance(
    ledger: LedgerModel,
    instructions: Seq<Instruction>,
    asset: CurrencyId,
)
    requires
        forall|i: int|
            0 <= i < instructions.len() ==> (#[trigger] instructions[i]).is_transfer()
                || instructions[i].asset() != asset,
    ensures
        ledger.apply_all(instructions) matches Some(after) ==> after.total_issuance(asset)
            == ledger.total_issuance(asset),
    decreases instructions.len(),
{
    if instructions.len() > 0 {
        let first = instructions.first();
        assert(first == instructions[0]);
        lemma_apply_issues(ledger, first, asset);
        if let Some(next) = ledger.apply(first) {
            assert forall|i: int| 0 <= i < instructions.drop_first().len() implies (
            #[trigger] instructions.drop_first()[i]).is_transfer()
                || instructions.drop_first()[i].asset() != asset by {
                assert(instructions.drop_first()[i] == instructions[i + 1]);
            }
            lemma_apply_all_leaves_issuance(next, instructions.drop_first(), asset);
        }
    }
}


/// Two instructions are carried out one after the other.
pub proof fn lemma_apply_two(ledger: LedgerModel, first: Instruction, second: Instruction)
    ensures
        ledger.apply_all(seq![first, second]) == (match ledger.apply(first) {
            None => None,
            Some(next) => next.apply(second),
        }),
{
    reveal_with_fuel(LedgerModel::apply_all, 3);
    let all = seq![first, second];
    assert(all.first() == first);
    assert(all.drop_first() =~= seq![second]);
    assert(seq![second].first() == second);
    assert(seq![second].drop_first() =~= Seq::<Instruction>::empty());
}

/// Three instructions are carried out one after the other.
pub proof fn lemma_apply_three(
    ledger: LedgerModel,
    first: Instruction,
    second: Instruction,
    third: Instruction,
)
    ensures
        ledger.apply_all(seq![first, second, third]) == (match ledger.apply(first) {
            None => None,
            Some(next) => next.apply_all(seq![second, third]),
        }),
{
    let all = seq![first, second, third];
    assert(all.first() == first);
    assert(all.drop_first() =~= seq![second, third]);
}

} // verus!
