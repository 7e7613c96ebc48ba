//! The order service's rules: what makes an order admissible, and how one
//! executed trade settles against the two parties' wallets and positions.

use vstd::prelude::*;

use crate::order::{OrderSide, Trade};
use crate::position::{position_wf, spec_apply_buy, spec_apply_sell, Position};
use crate::settlement::{EventInfo, EventStatus, OptionInfo};
use crate::wallet::{LedgerEntry, TransactionKind, UserAccount};

verus! {

#[derive(Clone, Copy, PartialEq, Eq, Structural, Debug)]
pub enum PlaceOrderError {
    EventNotActive,
    EventEnded,
    OptionMismatch,
    UserInactive,
    InsufficientBalance,
    InsufficientShares,
}

/// Why an order request is refused before it reaches the book, or nothing
/// when it may proceed: the event must be active and not past its end, the
/// option must belong to the event, the account must be active, a buyer
/// must afford price times quantity, and a seller must hold at least the
/// offered shares.
pub open spec fn spec_validate_order(
    event: EventInfo,
    option: OptionInfo,
    user: UserAccount,
    position_quantity: u64,
    side: OrderSide,
    price: u64,
    quantity: u64,
    now: i64,
) -> Option<PlaceOrderError> {
    if event.status != EventStatus::Active {
        Some(PlaceOrderError::EventNotActive)
    } else if event.end_time <= now {
        Some(PlaceOrderError::EventEnded)
    } else if option.event_id != event.id {
        Some(PlaceOrderError::OptionMismatch)
    } else if !user.is_active {
        Some(PlaceOrderError::UserInactive)
    } else if side == OrderSide::Buy && price * quantity > user.wallet_balance {
        Some(PlaceOrderError::InsufficientBalance)
    } else if side == OrderSide::Sell && position_quantity < quantity {
        Some(PlaceOrderError::InsufficientShares)
    } else {
        None
    }
}

/// Check an order request against the event, option, account and current
/// position before it reaches the matching engine.
pub fn validate_order(
    event: &EventInfo,
    option: &OptionInfo,
    user: &UserAccount,
    position_quantity: u64,
    side: OrderSide,
    price: u64,
    quantity: u64,
    now: i64,
) -> (r: Result<(), PlaceOrderError>)
    ensures
        ({
            let v = spec_validate_order(*event, *option, *user, position_quantity, side, price,
                quantity, now);
            match r {
                Ok(_) => v is None,
                Err(e) => v == Some(e),
            }
        }),
{
    if !matches!(event.status, EventStatus::Active) {
        return Err(PlaceOrderError::EventNotActive);
    }
    if event.end_time <= now {
        return Err(PlaceOrderError::EventEnded);
    }
    if option.event_id != event.id {
        return Err(PlaceOrderError::OptionMismatch);
    }
    if !user.is_active {
        return Err(PlaceOrderError::UserInactive);
    }
    if matches!(side, OrderSide::Buy) {
        proof {
            assert((price as int) * (quantity as int) <= u128::MAX) by (nonlinear_arith)
                requires
                    price <= u64::MAX,
                    quantity <= u64::MAX,
            ;
        }
        let required = (price as u128) * (quantity as u128);
        if required > user.wallet_balance {
            return Err(PlaceOrderError::InsufficientBalance);
        }
    }
    if matches!(side, OrderSide::Sell) {
        if position_quantity < quantity {
            return Err(PlaceOrderError::InsufficientShares);
        }
    }
    Ok(())
}

#[derive(Clone, Copy, PartialEq, Eq, Structural, Debug)]
pub enum TradeError {
    SellerInsufficientShares,
    BuyerInsufficientBalance,
}

/// Everything one executed trade changes: the two accounts, the two
/// positions, and the two ledger entries (the buyer's debit first, then the
/// seller's credit). When buyer and seller are the same user, the buyer
/// and seller fields hold the one account and the one position after both
/// halves applied in that order.
pub struct TradeEffects {
    pub buyer: UserAccount,
    pub seller: UserAccount,
    pub buyer_position: Position,
    pub seller_position: Position,
    pub debit_entry: LedgerEntry,
    pub credit_entry: LedgerEntry,
}

/// The buyer's debit ledger entry for a trade.
pub open spec fn spec_debit_entry(t: Trade, balance_before: u128, now: i64) -> LedgerEntry {
    LedgerEntry {
        user_id: t.buyer_id,
        kind: TransactionKind::TradeDebit,
        amount: t.total_amount,
        balance_before,
        balance_after: (balance_before - t.total_amount) as u128,
        created_at: now,
    }
}

/// The seller's credit ledger entry for a trade.
pub open spec fn spec_credit_entry(t: Trade, balance_before: u128, now: i64) -> LedgerEntry {
    LedgerEntry {
        user_id: t.seller_id,
        kind: TransactionKind::TradeCredit,
        amount: t.total_amount,
        balance_before,
        balance_after: (balance_before + t.total_amount) as u128,
        created_at: now,
    }
}

/// The buyer's position after the trade: grown by the trade quantity at
/// the trade price, or opened fresh when none existed.
pub open spec fn spec_buyer_position_after(t: Trade, buyer_position: Option<Position>, now: i64) -> Position {
    match buyer_position {
        Some(bp) => spec_apply_buy(bp, t.quantity, t.price, now),
        None => Position {
            user_id: t.buyer_id,
            event_id: t.event_id,
            option_id: t.option_id,
            quantity: t.quantity,
            average_price: t.price,
            created_at: now,
            updated_at: now,
        },
    }
}

/// What one trade does to its two parties, checked in the order the
/// transaction applies them: the seller must still hold the shares, the
/// buyer must still afford the total; then shares move to the buyer at the
/// trade price and money moves to the seller. A user trading with
/// themselves passes through both halves in order and ends with balance
/// unchanged and the position back where it started but for the refreshed
/// cost basis.
pub open spec fn spec_apply_trade(
    t: Trade,
    buyer: UserAccount,
    seller: UserAccount,
    buyer_position: Option<Position>,
    seller_position: Position,
    now: i64,
) -> Result<TradeEffects, TradeError> {
    if seller_position.quantity < t.quantity {
        Err(TradeError::SellerInsufficientShares)
    } else if buyer.wallet_balance < t.total_amount {
        Err(TradeError::BuyerInsufficientBalance)
    } else if t.buyer_id != t.seller_id {
        let b2 = UserAccount {
            wallet_balance: (buyer.wallet_balance - t.total_amount) as u128,
            ..buyer
        };
        let s2 = UserAccount {
            wallet_balance: (seller.wallet_balance + t.total_amount) as u128,
            ..seller
        };
        Ok(
            TradeEffects {
                buyer: b2,
                seller: s2,
                buyer_position: spec_buyer_position_after(t, buyer_position, now),
                seller_position: spec_apply_sell(seller_position, t.quantity, now),
                debit_entry: spec_debit_entry(t, buyer.wallet_balance, now),
                credit_entry: spec_credit_entry(t, (seller.wallet_balance) as u128, now),
            },
        )
    } else {
        // Self-crossing trade: debit then credit the one account, buy into
        // then sell out of the one position.
        let after_debit = (buyer.wallet_balance - t.total_amount) as u128;
        let u2 = UserAccount { wallet_balance: (after_debit + t.total_amount) as u128, ..buyer };
        let p1 = spec_apply_buy(seller_position, t.quantity, t.price, now);
        let p2 = spec_apply_sell(p1, t.quantity, now);
        Ok(
            TradeEffects {
                buyer: u2,
                seller: u2,
                buyer_position: p2,
                seller_position: p2,
                debit_entry: spec_debit_entry(t, buyer.wallet_balance, now),
                credit_entry: spec_credit_entry(t, after_debit, now),
            },
        )
    }
}

/// Apply one executed trade to its parties' accounts and positions.
pub fn apply_trade(
    t: &Trade,
    buyer: &UserAccount,
    seller: &UserAccount,
    buyer_position: &Option<Position>,
    seller_position: &Position,
    now: i64,
) -> (r: Result<TradeEffects, TradeError>)
    requires
        buyer.id == t.buyer_id,
        seller.id == t.seller_id,
        seller_position.user_id == t.seller_id,
        seller_position.event_id == t.event_id,
        seller_position.option_id == t.option_id,
        position_wf(*seller_position),
        buyer_position matches Some(bp) ==> bp.user_id == t.buyer_id && bp.event_id == t.event_id
            && bp.option_id == t.option_id && position_wf(*bp) && bp.quantity + t.quantity
            <= u64::MAX,
        1 <= t.quantity,
        1 <= t.price,
        t.total_amount == t.price * t.quantity,
        seller.wallet_balance + t.total_amount <= u128::MAX,
        seller_position.quantity + t.quantity <= u64::MAX,
        t.buyer_id == t.seller_id ==> *buyer == *seller && *buyer_position == Some(
            *seller_position,
        ),
    ensures
        r == spec_apply_trade(*t, *buyer, *seller, *buyer_position, *seller_position, now),
        r matches Ok(e) ==> {
            &&& crate::wallet::entry_ok(e.debit_entry)
            &&& crate::wallet::entry_ok(e.credit_entry)
            &&& position_wf(e.seller_position)
        },
{
    if seller_position.quantity < t.quantity {
        return Err(TradeError::SellerInsufficientShares);
    }
    if buyer.wallet_balance < t.total_amount {
        return Err(TradeError::BuyerInsufficientBalance);
    }
    if t.buyer_id != t.seller_id {
        let b2 = UserAccount { wallet_balance: buyer.wallet_balance - t.total_amount, ..*buyer };
        let s2 = UserAccount { wallet_balance: seller.wallet_balance + t.total_amount, ..*seller };
        let bp2 = match buyer_position {
            Some(bp) => crate::position::apply_buy(bp, t.quantity, t.price, now),
            None => crate::position::new_position(t.buyer_id, t.event_id, t.option_id, t.quantity,
                t.price, now),
        };
        let sp2 = match crate::position::apply_sell(seller_position, t.quantity, now) {
            Ok(p) => p,
            Err(_) => {
                proof {
                    assert(false);
                }
                *seller_position
            },
        };
        Ok(
            TradeEffects {
                buyer: b2,
                seller: s2,
                buyer_position: bp2,
                seller_position: sp2,
                debit_entry: LedgerEntry {
                    user_id: t.buyer_id,
                    kind: TransactionKind::TradeDebit,
                    amount: t.total_amount,
                    balance_before: buyer.wallet_balance,
                    balance_after: buyer.wallet_balance - t.total_amount,
                    created_at: now,
                },
                credit_entry: LedgerEntry {
                    user_id: t.seller_id,
                    kind: TransactionKind::TradeCredit,
                    amount: t.total_amount,
                    balance_before: seller.wallet_balance,
                    balance_after: seller.wallet_balance + t.total_amount,
                    created_at: now,
                },
            },
        )
    } else {
        let after_debit = buyer.wallet_balance - t.total_amount;
        let u2 = UserAccount { wallet_balance: after_debit + t.total_amount, ..*buyer };
        let p1 = crate::position::apply_buy(seller_position, t.quantity, t.price, now);
        let p2 = match crate::position::apply_sell(&p1, t.quantity, now) {
            Ok(p) => p,
            Err(_) => {
                proof {
                    assert(false);
                }
                p1
            },
        };
        Ok(
            TradeEffects {
                buyer: u2,
                seller: u2,
                buyer_position: p2,
                seller_position: p2,
                debit_entry: LedgerEntry {
                    user_id: t.buyer_id,
                    kind: TransactionKind::TradeDebit,
                    amount: t.total_amount,
                    balance_before: buyer.wallet_balance,
                    balance_after: after_debit,
                    created_at: now,
                },
                credit_entry: LedgerEntry {
                    user_id: t.seller_id,
                    kind: TransactionKind::TradeCredit,
                    amount: t.total_amount,
                    balance_before: after_debit,
                    balance_after: after_debit + t.total_amount,
                    created_at: now,
                },
            },
        )
    }
}

/// A self-crossing trade leaves the trader's balance exactly where it was.
pub proof fn lemma_self_trade_balance_unchanged(
    t: Trade,
    user: UserAccount,
    buyer_position: Option<Position>,
    seller_position: Position,
    now: i64,
)
    requires
        t.buyer_id == t.seller_id,
        spec_apply_trade(t, user, user, buyer_position, seller_position, now) is Ok,
    ensures
        ({
            let e = spec_apply_trade(t, user, user, buyer_position, seller_position, now)->Ok_0;
            e.buyer.wallet_balance == user.wallet_balance
        }),
{
}

} // verus!
