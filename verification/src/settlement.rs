//! Event settlement: marking the winning option, paying out one currency
//! unit per winning share, and closing every position of the event.

use vstd::prelude::*;

use crate::position::Position;

verus! {

/// Each winning share pays out one whole currency unit.
pub const PAYOUT_PER_SHARE: u64 = crate::PRICE_SCALE;

#[derive(Clone, Copy, PartialEq, Eq, Debug)]
pub enum EventStatus {
    Draft,
    Active,
    Paused,
    Ended,
    Resolved,
    Cancelled,
}

/// An event as the core sees it. Timestamps are milliseconds since the
/// Unix epoch; the resolution fields stay `None` until settlement.
#[derive(Clone, Copy, PartialEq, Eq, Debug)]
pub struct EventInfo {
    pub id: i32,
    pub status: EventStatus,
    pub end_time: i64,
    pub min_bet_amount: u128,
    pub max_bet_amount: u128,
    pub total_volume: u128,
    pub created_by: i32,
    pub resolved_by: Option<i32>,
    pub winning_option_id: Option<i32>,
    pub resolved_at: Option<i64>,
}

/// One outcome of an event. `is_winning` stays `None` until settlement.
#[derive(Clone, Copy, PartialEq, Eq, Debug)]
pub struct OptionInfo {
    pub id: i32,
    pub event_id: i32,
    pub current_price: u64,
    pub total_backing: u128,
    pub is_winning: Option<bool>,
}

#[derive(Clone, Copy, PartialEq, Eq, Structural, Debug)]
pub enum SettleError {
    AlreadyResolved,
    NotEnded,
    InvalidWinningOption,
}

/// What one settled position pays its holder.
#[derive(Clone, Copy, PartialEq, Eq, Structural, Debug)]
pub struct PayoutRecord {
    pub user_id: i32,
    pub option_id: i32,
    pub shares_held: u64,
    pub payout_per_share: u64,
    pub total_payout: u128,
}

/// The outcome of settling an event: the resolved event, the marked
/// options, one payout record per open position, the closed positions, and
/// the sum paid out.
pub struct Settlement {
    pub event: EventInfo,
    pub options: Vec<OptionInfo>,
    pub payouts: Vec<PayoutRecord>,
    pub positions: Vec<Position>,
    pub total_payouts: u128,
}

/// Why a settlement request is refused, or nothing when it may proceed:
/// the event must not be resolved already, must have ended (by clock or by
/// status), and the winning option must be one of the event's options.
pub open spec fn spec_settle_refusal(
    event: EventInfo,
    options: Seq<OptionInfo>,
    winning_option_id: i32,
    now: i64,
) -> Option<SettleError> {
    if event.status == EventStatus::Resolved {
        Some(SettleError::AlreadyResolved)
    } else if event.end_time > now && event.status != EventStatus::Ended {
        Some(SettleError::NotEnded)
    } else if !(exists|i: int|
        0 <= i < options.len() && (#[trigger] options[i]).id == winning_option_id) {
        Some(SettleError::InvalidWinningOption)
    } else {
        None
    }
}

/// Options after settlement: exactly the winning one is marked winning.
pub open spec fn spec_mark_options(options: Seq<OptionInfo>, winning_option_id: i32) -> Seq<
    OptionInfo,
> {
    options.map_values(
        |o: OptionInfo| OptionInfo { is_winning: Some(o.id == winning_option_id), ..o },
    )
}

/// The payout a position earns: one unit per share for the winning option,
/// nothing otherwise.
pub open spec fn spec_payout(p: Position, winning_option_id: i32) -> PayoutRecord {
    PayoutRecord {
        user_id: p.user_id,
        option_id: p.option_id,
        shares_held: p.quantity,
        payout_per_share: if p.option_id == winning_option_id {
            PAYOUT_PER_SHARE
        } else {
            0
        },
        total_payout: if p.option_id == winning_option_id {
            (PAYOUT_PER_SHARE * p.quantity) as u128
        } else {
            0
        },
    }
}

/// A position once its event settles: emptied, with no cost basis.
pub open spec fn spec_close(p: Position, now: i64) -> Position {
    Position { quantity: 0, average_price: 0, updated_at: now, ..p }
}

/// Sum of all payouts over the event's open positions.
pub open spec fn spec_total_payout(positions: Seq<Position>, winning_option_id: i32) -> int
    decreases positions.len(),
{
    if positions.len() == 0 {
        0
    } else {
        spec_payout(positions[0], winning_option_id).total_payout + spec_total_payout(
            positions.drop_first(),
            winning_option_id,
        )
    }
}

/// Payout sums are non-negative.
pub proof fn lemma_total_payout_nonneg(positions: Seq<Position>, winning_option_id: i32)
    ensures
        spec_total_payout(positions, winning_option_id) >= 0,
    decreases positions.len(),
{
    if positions.len() > 0 {
        lemma_total_payout_nonneg(positions.drop_first(), winning_option_id);
    }
}

/// Settlement is idempotent: settling leaves the event `Resolved`, and a
/// settlement request against a resolved event is refused outright, so a
/// second settle has no effect to apply.
pub proof fn lemma_settlement_idempotent(
    event: EventInfo,
    options: Seq<OptionInfo>,
    winning_option_id: i32,
    resolver_id: i32,
    now: i64,
    options2: Seq<OptionInfo>,
    winning2: i32,
    now2: i64,
)
    requires
        spec_settle_refusal(event, options, winning_option_id, now) is None,
    ensures
        ({
            let resolved = EventInfo {
                status: EventStatus::Resolved,
                resolved_by: Some(resolver_id),
                winning_option_id: Some(winning_option_id),
                resolved_at: Some(now),
                ..event
            };
            spec_settle_refusal(resolved, options2, winning2, now2) == Some(
                SettleError::AlreadyResolved,
            )
        }),
{
}

/// Build payouts and closed positions for every position from `i` on.
fn settle_positions_rec(
    positions: &Vec<Position>,
    i: usize,
    winning_option_id: i32,
    now: i64,
) -> (r: (Vec<PayoutRecord>, Vec<Position>, u128))
    requires
        i <= positions@.len(),
        spec_total_payout(positions@.skip(i as int), winning_option_id) <= u128::MAX,
    ensures
        r.0@.len() == positions@.len() - i,
        r.1@.len() == positions@.len() - i,
        forall|k: int| 0 <= k < r.0@.len() ==> #[trigger] r.0@[k] == spec_payout(
            positions@[k + i],
            winning_option_id,
        ),
        forall|k: int| 0 <= k < r.1@.len() ==> #[trigger] r.1@[k] == spec_close(
            positions@[k + i],
            now,
        ),
        r.2 == spec_total_payout(positions@.skip(i as int), winning_option_id),
    decreases positions@.len() - i,
{
    if i == positions.len() {
        return (Vec::new(), Vec::new(), 0);
    }
    proof {
        assert(positions@.skip(i as int)[0] == positions@[i as int]);
        assert(positions@.skip(i as int).drop_first() =~= positions@.skip(i as int + 1));
        lemma_total_payout_nonneg(positions@.skip(i as int + 1), winning_option_id);
        assert((PAYOUT_PER_SHARE as int) * (positions@[i as int].quantity as int) <= u128::MAX)
            by (nonlinear_arith)
            requires
                positions@[i as int].quantity <= u64::MAX,
                PAYOUT_PER_SHARE == 100_000_000u64,
        ;
        assert((PAYOUT_PER_SHARE as int) * (positions@[i as int].quantity as int) >= 0)
            by (nonlinear_arith)
            requires
                positions@[i as int].quantity >= 0,
        ;
    }
    let p = positions[i];
    let payout_amount: u128 = if p.option_id == winning_option_id {
        (PAYOUT_PER_SHARE as u128) * (p.quantity as u128)
    } else {
        0
    };
    let record = PayoutRecord {
        user_id: p.user_id,
        option_id: p.option_id,
        shares_held: p.quantity,
        payout_per_share: if p.option_id == winning_option_id {
            PAYOUT_PER_SHARE
        } else {
            0
        },
        total_payout: payout_amount,
    };
    let closed = Position { quantity: 0, average_price: 0, updated_at: now, ..p };
    let (mut payouts, mut closed_all, total_rest) = settle_positions_rec(positions, i + 1,
        winning_option_id, now);
    payouts.insert(0, record);
    closed_all.insert(0, closed);
    (payouts, closed_all, payout_amount + total_rest)
}

/// Mark every option of the event, the winning one as winning.
fn mark_options(options: &Vec<OptionInfo>, winning_option_id: i32) -> (r: Vec<OptionInfo>)
    ensures
        r@ == spec_mark_options(options@, winning_option_id),
{
    let mut out: Vec<OptionInfo> = Vec::new();
    let mut i: usize = 0;
    while i < options.len()
        invariant
            i <= options@.len(),
            out@.len() == i,
            forall|k: int| 0 <= k < i ==> #[trigger] out@[k] == (OptionInfo {
                is_winning: Some(options@[k].id == winning_option_id),
                ..options@[k]
            }),
        decreases options@.len() - i,
    {
        let o = options[i];
        out.push(OptionInfo { is_winning: Some(o.id == winning_option_id), ..o });
        i = i + 1;
    }
    proof {
        assert(out@ =~= spec_mark_options(options@, winning_option_id));
    }
    out
}

/// Settle an event: refuse when already resolved, not yet ended, or the
/// winning option is not the event's; otherwise mark every option, pay one
/// unit per winning share, close every open position and resolve the event.
pub fn settle_event(
    event: &EventInfo,
    options: &Vec<OptionInfo>,
    positions: &Vec<Position>,
    winning_option_id: i32,
    resolver_id: i32,
    now: i64,
) -> (r: Result<Settlement, SettleError>)
    requires
        forall|i: int| 0 <= i < positions@.len() ==> (#[trigger] positions@[i]).event_id
            == event.id && 1 <= positions@[i].quantity,
        spec_total_payout(positions@, winning_option_id) <= u128::MAX,
    ensures
        ({
            let refusal = spec_settle_refusal(*event, options@, winning_option_id, now);
            match r {
                Err(e) => refusal == Some(e),
                Ok(s) => {
                    &&& refusal is None
                    &&& s.event == (EventInfo {
                        status: EventStatus::Resolved,
                        resolved_by: Some(resolver_id),
                        winning_option_id: Some(winning_option_id),
                        resolved_at: Some(now),
                        ..*event
                    })
                    &&& s.options@ == spec_mark_options(options@, winning_option_id)
                    &&& s.payouts@.len() == positions@.len()
                    &&& (forall|k: int|
                        0 <= k < positions@.len() ==> #[trigger] s.payouts@[k] == spec_payout(
                            positions@[k],
                            winning_option_id,
                        ))
                    &&& s.positions@.len() == positions@.len()
                    &&& (forall|k: int|
                        0 <= k < positions@.len() ==> #[trigger] s.positions@[k] == spec_close(
                            positions@[k],
                            now,
                        ))
                    &&& (forall|k: int|
                        0 <= k < s.positions@.len() ==> (#[trigger] s.positions@[k]).quantity
                            == 0)
                    &&& s.total_payouts == spec_total_payout(positions@, winning_option_id)
                },
            }
        }),
{
    if matches!(event.status, EventStatus::Resolved) {
        return Err(SettleError::AlreadyResolved);
    }
    if event.end_time > now && !matches!(event.status, EventStatus::Ended) {
        return Err(SettleError::NotEnded);
    }
    let mut found = false;
    let mut i: usize = 0;
    while i < options.len()
        invariant
            i <= options@.len(),
            found == exists|k: int|
                0 <= k < i && (#[trigger] options@[k]).id == winning_option_id,
        decreases options@.len() - i,
    {
        if options[i].id == winning_option_id {
            found = true;
        }
        i = i + 1;
    }
    if !found {
        return Err(SettleError::InvalidWinningOption);
    }
    let marked = mark_options(options, winning_option_id);
    proof {
        assert(positions@.skip(0) =~= positions@);
    }
    let (payouts, closed, total) = settle_positions_rec(positions, 0, winning_option_id, now);
    let resolved = EventInfo {
        status: EventStatus::Resolved,
        resolved_by: Some(resolver_id),
        winning_option_id: Some(winning_option_id),
        resolved_at: Some(now),
        ..*event
    };
    Ok(
        Settlement {
            event: resolved,
            options: marked,
            payouts,
            positions: closed,
            total_payouts: total,
        },
    )
}

/// In a settled event exactly one option is winning: after marking, an
/// option is winning precisely when it is the chosen one, so with distinct
/// option identifiers and the winner among them there is exactly one index
/// marked winning.
pub proof fn lemma_exactly_one_winner(options: Seq<OptionInfo>, winning_option_id: i32)
    requires
        forall|i: int, j: int|
            0 <= i < j < options.len() ==> (#[trigger] options[i]).id != (
            #[trigger] options[j]).id,
        exists|i: int| 0 <= i < options.len() && (#[trigger] options[i]).id == winning_option_id,
    ensures
        ({
            let marked = spec_mark_options(options, winning_option_id);
            exists|w: int|
                {
                    &&& 0 <= w < marked.len()
                    &&& (#[trigger] marked[w]).is_winning == Some(true)
                    &&& forall|j: int|
                        0 <= j < marked.len() && j != w ==> (#[trigger] marked[j]).is_winning
                            == Some(false)
                }
        }),
{
    let marked = spec_mark_options(options, winning_option_id);
    let w = choose|i: int|
        0 <= i < options.len() && (#[trigger] options[i]).id == winning_option_id;
    assert(marked[w].is_winning == Some(true));
    assert forall|j: int| 0 <= j < marked.len() && j != w implies (#[trigger] marked[j]).is_winning
        == Some(false) by {
        if j < w {
            assert(options[j].id != options[w].id);
        } else {
            assert(options[w].id != options[j].id);
        }
    }
}

} // verus!
