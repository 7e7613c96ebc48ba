//! The direct betting path: buying shares of an outcome at a quoted price,
//! outside the order book, within the event's bet limits.

use vstd::prelude::*;

use crate::settlement::{EventInfo, EventStatus, OptionInfo};
use crate::wallet::UserAccount;

verus! {

#[derive(Clone, Copy, PartialEq, Eq, Structural, Debug)]
pub enum BetStatus {
    Active,
    Won,
    Lost,
    Refunded,
}

/// A bet as stored: so many shares of one option at a quoted price each.
#[derive(Clone, Copy, PartialEq, Eq, Structural, Debug)]
pub struct BetRecord {
    pub user_id: i32,
    pub event_id: i32,
    pub option_id: i32,
    pub quantity: u64,
    pub price_per_share: u64,
    pub total_amount: u128,
    pub status: BetStatus,
    pub placed_at: i64,
}

#[derive(Clone, Copy, PartialEq, Eq, Structural, Debug)]
pub struct PlaceBetRequest {
    pub event_id: i32,
    pub option_id: i32,
    pub quantity: u64,
    pub price_per_share: u64,
}

#[derive(Clone, Copy, PartialEq, Eq, Structural, Debug)]
pub enum PlaceBetError {
    EventNotActive,
    EventEnded,
    OptionMismatch,
    BelowMinimumBet,
    AboveMaximumBet,
    InsufficientBalance,
}

/// Everything a placed bet changes: the stored bet, the debited account,
/// the event with its volume grown, and the option with its backing grown.
pub struct BetPlacement {
    pub bet: BetRecord,
    pub user: UserAccount,
    pub event: EventInfo,
    pub option: OptionInfo,
}

/// The stake of a bet request: price per share times quantity.
pub open spec fn spec_bet_total(req: PlaceBetRequest) -> int {
    req.price_per_share * req.quantity
}

/// Why a bet is refused, or nothing when it may proceed: the event must be
/// active and not past its end, the option must belong to the event, the
/// stake must sit within the event's bet limits, and the account must
/// cover it.
pub open spec fn spec_bet_refusal(
    event: EventInfo,
    option: OptionInfo,
    user: UserAccount,
    req: PlaceBetRequest,
    now: i64,
) -> Option<PlaceBetError> {
    let total = spec_bet_total(req);
    if event.status != EventStatus::Active {
        Some(PlaceBetError::EventNotActive)
    } else if event.end_time <= now {
        Some(PlaceBetError::EventEnded)
    } else if option.event_id != event.id {
        Some(PlaceBetError::OptionMismatch)
    } else if total < event.min_bet_amount {
        Some(PlaceBetError::BelowMinimumBet)
    } else if total > event.max_bet_amount {
        Some(PlaceBetError::AboveMaximumBet)
    } else if user.wallet_balance < total {
        Some(PlaceBetError::InsufficientBalance)
    } else {
        None
    }
}

/// Place a bet: validate it against the event, option and account, then
/// debit the stake, grow the event's volume and the option's backing, and
/// record the bet as active.
pub fn place_bet(
    event: &EventInfo,
    option: &OptionInfo,
    user: &UserAccount,
    req: &PlaceBetRequest,
    now: i64,
) -> (r: Result<BetPlacement, PlaceBetError>)
    requires
        event.total_volume + spec_bet_total(*req) <= u128::MAX,
        option.total_backing + spec_bet_total(*req) <= u128::MAX,
    ensures
        ({
            let refusal = spec_bet_refusal(*event, *option, *user, *req, now);
            match r {
                Err(e) => refusal == Some(e),
                Ok(p) => {
                    let total = spec_bet_total(*req);
                    &&& refusal is None
                    &&& p.bet == (BetRecord {
                        user_id: user.id,
                        event_id: req.event_id,
                        option_id: req.option_id,
                        quantity: req.quantity,
                        price_per_share: req.price_per_share,
                        total_amount: total as u128,
                        status: BetStatus::Active,
                        placed_at: now,
                    })
                    &&& p.user == (UserAccount {
                        wallet_balance: (user.wallet_balance - total) as u128,
                        ..*user
                    })
                    &&& p.event == (EventInfo {
                        total_volume: (event.total_volume + total) as u128,
                        ..*event
                    })
                    &&& p.option == (OptionInfo {
                        total_backing: (option.total_backing + total) as u128,
                        ..*option
                    })
                },
            }
        }),
{
    proof {
        assert((req.price_per_share as int) * (req.quantity as int) <= u128::MAX)
            by (nonlinear_arith)
            requires
                req.price_per_share <= u64::MAX,
                req.quantity <= u64::MAX,
        ;
        assert((req.price_per_share as int) * (req.quantity as int) >= 0) by (nonlinear_arith)
            requires
                req.price_per_share >= 0,
                req.quantity >= 0,
        ;
    }
    let total = (req.price_per_share as u128) * (req.quantity as u128);
    if !matches!(event.status, EventStatus::Active) {
        return Err(PlaceBetError::EventNotActive);
    }
    if event.end_time <= now {
        return Err(PlaceBetError::EventEnded);
    }
    if option.event_id != event.id {
        return Err(PlaceBetError::OptionMismatch);
    }
    if total < event.min_bet_amount {
        return Err(PlaceBetError::BelowMinimumBet);
    }
    if total > event.max_bet_amount {
        return Err(PlaceBetError::AboveMaximumBet);
    }
    if user.wallet_balance < total {
        return Err(PlaceBetError::InsufficientBalance);
    }
    Ok(
        BetPlacement {
            bet: BetRecord {
                user_id: user.id,
                event_id: req.event_id,
                option_id: req.option_id,
                quantity: req.quantity,
                price_per_share: req.price_per_share,
                total_amount: total,
                status: BetStatus::Active,
                placed_at: now,
            },
            user: UserAccount { wallet_balance: user.wallet_balance - total, ..*user },
            event: EventInfo { total_volume: event.total_volume + total, ..*event },
            option: OptionInfo { total_backing: option.total_backing + total, ..*option },
        },
    )
}

} // verus!
