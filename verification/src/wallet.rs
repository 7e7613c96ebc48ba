//! Wallets and the transaction ledger: deposits, withdrawals, payouts and
//! trade settlements, each leaving a ledger entry that links the balance
//! before to the balance after.

use vstd::prelude::*;

verus! {

#[derive(Clone, Copy, PartialEq, Eq, Structural, Debug)]
pub enum UserRole {
    User,
    Admin,
}

/// A user account as the core sees it: identifier, balance in fixed-point
/// units, whether the account may transact, and its role.
#[derive(Clone, Copy, PartialEq, Eq, Structural, Debug)]
pub struct UserAccount {
    pub id: i32,
    pub wallet_balance: u128,
    pub is_active: bool,
    pub role: UserRole,
}

#[derive(Clone, Copy, PartialEq, Eq, Structural, Debug)]
pub enum TransactionKind {
    Deposit,
    Withdraw,
    EventPayout,
    TradeDebit,
    TradeCredit,
}

/// One committed ledger row. The invariant `entry_ok` ties the balances to
/// the amount and the kind.
#[derive(Clone, Copy, PartialEq, Eq, Structural, Debug)]
pub struct LedgerEntry {
    pub user_id: i32,
    pub kind: TransactionKind,
    pub amount: u128,
    pub balance_before: u128,
    pub balance_after: u128,
    pub created_at: i64,
}

#[derive(Clone, Copy, PartialEq, Eq, Structural, Debug)]
pub enum WalletError {
    AmountNotPositive,
    UserInactive,
    InsufficientBalance,
}

/// Whether a transaction kind adds to the balance.
pub open spec fn is_credit(kind: TransactionKind) -> bool {
    match kind {
        TransactionKind::Deposit => true,
        TransactionKind::EventPayout => true,
        TransactionKind::TradeCredit => true,
        TransactionKind::Withdraw => false,
        TransactionKind::TradeDebit => false,
    }
}

/// The signed effect of one entry on the balance.
pub open spec fn entry_delta(e: LedgerEntry) -> int {
    if is_credit(e.kind) {
        e.amount as int
    } else {
        -(e.amount as int)
    }
}

/// A consistent entry: the balance after equals the balance before plus or
/// minus the amount, by kind.
pub open spec fn entry_ok(e: LedgerEntry) -> bool {
    e.balance_after == e.balance_before + entry_delta(e)
}

/// A run of entries starting from balance `b0` in which every entry is
/// consistent and each entry starts where the previous one ended.
pub open spec fn ledger_chain(entries: Seq<LedgerEntry>, b0: u128) -> bool
    decreases entries.len(),
{
    if entries.len() == 0 {
        true
    } else {
        &&& entries[0].balance_before == b0
        &&& entry_ok(entries[0])
        &&& ledger_chain(entries.drop_first(), entries[0].balance_after)
    }
}

/// Net effect of a run of entries.
pub open spec fn ledger_delta(entries: Seq<LedgerEntry>) -> int
    decreases entries.len(),
{
    if entries.len() == 0 {
        0
    } else {
        entry_delta(entries[0]) + ledger_delta(entries.drop_first())
    }
}

/// The wallet balance always equals the sum of the committed ledger:
/// starting from `b0`, after any consistent run of deposits, withdrawals,
/// trade debits, trade credits and payouts, the final balance is `b0` plus
/// the signed sum of their amounts.
pub proof fn lemma_wallet_balance_is_ledger_sum(entries: Seq<LedgerEntry>, b0: u128)
    requires
        ledger_chain(entries, b0),
    ensures
        (if entries.len() == 0 {
            b0 as int
        } else {
            entries.last().balance_after as int
        }) == b0 + ledger_delta(entries),
    decreases entries.len(),
{
    if entries.len() > 0 {
        lemma_wallet_balance_is_ledger_sum(entries.drop_first(), entries[0].balance_after);
        if entries.len() > 1 {
            assert(entries.drop_first().last() == entries.last());
        }
    }
}

/// What a deposit does: zero amounts and inactive accounts are refused,
/// anything else credits the balance and records a `Deposit` entry.
pub open spec fn spec_deposit(user: UserAccount, amount: u128, now: i64) -> Result<
    (UserAccount, LedgerEntry),
    WalletError,
> {
    if amount == 0 {
        Err(WalletError::AmountNotPositive)
    } else if !user.is_active {
        Err(WalletError::UserInactive)
    } else {
        Ok(
            (
                UserAccount { wallet_balance: (user.wallet_balance + amount) as u128, ..user },
                LedgerEntry {
                    user_id: user.id,
                    kind: TransactionKind::Deposit,
                    amount,
                    balance_before: user.wallet_balance,
                    balance_after: (user.wallet_balance + amount) as u128,
                    created_at: now,
                },
            ),
        )
    }
}

/// What a withdrawal does: zero amounts, inactive accounts and amounts over
/// the balance are refused; anything else debits the balance and records a
/// `Withdraw` entry.
pub open spec fn spec_withdraw(user: UserAccount, amount: u128, now: i64) -> Result<
    (UserAccount, LedgerEntry),
    WalletError,
> {
    if amount == 0 {
        Err(WalletError::AmountNotPositive)
    } else if !user.is_active {
        Err(WalletError::UserInactive)
    } else if user.wallet_balance < amount {
        Err(WalletError::InsufficientBalance)
    } else {
        Ok(
            (
                UserAccount { wallet_balance: (user.wallet_balance - amount) as u128, ..user },
                LedgerEntry {
                    user_id: user.id,
                    kind: TransactionKind::Withdraw,
                    amount,
                    balance_before: user.wallet_balance,
                    balance_after: (user.wallet_balance - amount) as u128,
                    created_at: now,
                },
            ),
        )
    }
}

/// Deposit `amount` into the account at time `now`.
pub fn deposit(user: &UserAccount, amount: u128, now: i64) -> (r: Result<
    (UserAccount, LedgerEntry),
    WalletError,
>)
    requires
        user.wallet_balance + amount <= u128::MAX,
    ensures
        r == spec_deposit(*user, amount, now),
        r matches Ok(p) ==> entry_ok(p.1) && p.0.wallet_balance == p.1.balance_after,
{
    if amount == 0 {
        return Err(WalletError::AmountNotPositive);
    }
    if !user.is_active {
        return Err(WalletError::UserInactive);
    }
    let new_balance = user.wallet_balance + amount;
    Ok(
        (
            UserAccount { wallet_balance: new_balance, ..*user },
            LedgerEntry {
                user_id: user.id,
                kind: TransactionKind::Deposit,
                amount,
                balance_before: user.wallet_balance,
                balance_after: new_balance,
                created_at: now,
            },
        ),
    )
}

/// Withdraw `amount` from the account at time `now`.
pub fn withdraw(user: &UserAccount, amount: u128, now: i64) -> (r: Result<
    (UserAccount, LedgerEntry),
    WalletError,
>)
    ensures
        r == spec_withdraw(*user, amount, now),
        r matches Ok(p) ==> entry_ok(p.1) && p.0.wallet_balance == p.1.balance_after,
{
    if amount == 0 {
        return Err(WalletError::AmountNotPositive);
    }
    if !user.is_active {
        return Err(WalletError::UserInactive);
    }
    if user.wallet_balance < amount {
        return Err(WalletError::InsufficientBalance);
    }
    let new_balance = user.wallet_balance - amount;
    Ok(
        (
            UserAccount { wallet_balance: new_balance, ..*user },
            LedgerEntry {
                user_id: user.id,
                kind: TransactionKind::Withdraw,
                amount,
                balance_before: user.wallet_balance,
                balance_after: new_balance,
                created_at: now,
            },
        ),
    )
}

/// Credit a trade's proceeds to the seller at time `now`.
pub fn trade_credit(user: &UserAccount, amount: u128, now: i64) -> (r: (UserAccount, LedgerEntry))
    requires
        user.wallet_balance + amount <= u128::MAX,
        1 <= amount,
    ensures
        r.0 == (UserAccount { wallet_balance: (user.wallet_balance + amount) as u128, ..*user }),
        r.1 == (LedgerEntry {
            user_id: user.id,
            kind: TransactionKind::TradeCredit,
            amount,
            balance_before: user.wallet_balance,
            balance_after: (user.wallet_balance + amount) as u128,
            created_at: now,
        }),
        entry_ok(r.1),
{
    let new_balance = user.wallet_balance + amount;
    (
        UserAccount { wallet_balance: new_balance, ..*user },
        LedgerEntry {
            user_id: user.id,
            kind: TransactionKind::TradeCredit,
            amount,
            balance_before: user.wallet_balance,
            balance_after: new_balance,
            created_at: now,
        },
    )
}

/// Debit a trade's cost from the buyer at time `now`; refused if the
/// balance would go negative.
pub fn trade_debit(user: &UserAccount, amount: u128, now: i64) -> (r: Result<
    (UserAccount, LedgerEntry),
    WalletError,
>)
    requires
        1 <= amount,
    ensures
        user.wallet_balance < amount ==> r == Err::<(UserAccount, LedgerEntry), WalletError>(
            WalletError::InsufficientBalance,
        ),
        user.wallet_balance >= amount ==> r == Ok::<(UserAccount, LedgerEntry), WalletError>(
            (
                UserAccount {
                    wallet_balance: (user.wallet_balance - amount) as u128,
                    ..*user
                },
                LedgerEntry {
                    user_id: user.id,
                    kind: TransactionKind::TradeDebit,
                    amount,
                    balance_before: user.wallet_balance,
                    balance_after: (user.wallet_balance - amount) as u128,
                    created_at: now,
                },
            ),
        ),
        r matches Ok(p) ==> entry_ok(p.1),
{
    if user.wallet_balance < amount {
        return Err(WalletError::InsufficientBalance);
    }
    let new_balance = user.wallet_balance - amount;
    Ok(
        (
            UserAccount { wallet_balance: new_balance, ..*user },
            LedgerEntry {
                user_id: user.id,
                kind: TransactionKind::TradeDebit,
                amount,
                balance_before: user.wallet_balance,
                balance_after: new_balance,
                created_at: now,
            },
        ),
    )
}

/// Credit an event payout to a winner at time `now`.
pub fn event_payout(user: &UserAccount, amount: u128, now: i64) -> (r: (UserAccount, LedgerEntry))
    requires
        user.wallet_balance + amount <= u128::MAX,
        1 <= amount,
    ensures
        r.0 == (UserAccount { wallet_balance: (user.wallet_balance + amount) as u128, ..*user }),
        r.1 == (LedgerEntry {
            user_id: user.id,
            kind: TransactionKind::EventPayout,
            amount,
            balance_before: user.wallet_balance,
            balance_after: (user.wallet_balance + amount) as u128,
            created_at: now,
        }),
        entry_ok(r.1),
{
    let new_balance = user.wallet_balance + amount;
    (
        UserAccount { wallet_balance: new_balance, ..*user },
        LedgerEntry {
            user_id: user.id,
            kind: TransactionKind::EventPayout,
            amount,
            balance_before: user.wallet_balance,
            balance_after: new_balance,
            created_at: now,
        },
    )
}

} // verus!
