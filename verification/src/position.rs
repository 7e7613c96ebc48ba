//! Share positions: per-user per-option quantity with a weighted-average
//! cost basis, and the rules trades apply to them.

use vstd::prelude::*;

verus! {

/// A user's holding of one option's shares. A closed position (quantity
/// zero) carries a zero average price.
#[derive(Clone, Copy, PartialEq, Eq, Structural, Debug)]
pub struct Position {
    pub user_id: i32,
    pub event_id: i32,
    pub option_id: i32,
    pub quantity: u64,
    pub average_price: u64,
    pub created_at: i64,
    pub updated_at: i64,
}

#[derive(Clone, Copy, PartialEq, Eq, Structural, Debug)]
pub enum PositionError {
    InsufficientShares,
}

/// Position invariant: a closed position has no cost basis.
pub open spec fn position_wf(p: Position) -> bool {
    p.quantity == 0 ==> p.average_price == 0
}

/// The position after buying `q` shares at `price`: the quantity grows and
/// the average price becomes the quantity-weighted mean of the old basis
/// and the new purchase, truncated toward zero.
pub open spec fn spec_apply_buy(p: Position, q: u64, price: u64, now: i64) -> Position {
    Position {
        quantity: (p.quantity + q) as u64,
        average_price: ((p.average_price * p.quantity + price * q) / (p.quantity + q)) as u64,
        updated_at: now,
        ..p
    }
}

/// The position after selling `q` shares: the quantity shrinks, the average
/// price stays, and a fully closed position resets its basis to zero.
pub open spec fn spec_apply_sell(p: Position, q: u64, now: i64) -> Position {
    Position {
        quantity: (p.quantity - q) as u64,
        average_price: if p.quantity == q {
            0
        } else {
            p.average_price
        },
        updated_at: now,
        ..p
    }
}

/// Buy `q` shares at `price`, updating the weighted-average cost basis.
pub fn apply_buy(p: &Position, q: u64, price: u64, now: i64) -> (r: Position)
    requires
        1 <= q,
        p.quantity + q <= u64::MAX,
    ensures
        r == spec_apply_buy(*p, q, price, now),
        position_wf(r),
        r.average_price <= vstd::math::max(p.average_price as int, price as int),
{
    proof {
        assert((p.average_price as int) * (p.quantity as int) <= u128::MAX) by (nonlinear_arith)
            requires
                p.average_price <= u64::MAX,
                p.quantity <= u64::MAX,
        ;
        assert((price as int) * (q as int) <= u128::MAX) by (nonlinear_arith)
            requires
                price <= u64::MAX,
                q <= u64::MAX,
        ;
    }
    let old_cost = (p.average_price as u128) * (p.quantity as u128);
    let new_cost = (price as u128) * (q as u128);
    let new_qty = p.quantity + q;
    proof {
        let m = vstd::math::max(p.average_price as int, price as int);
        assert((p.average_price as int) * (p.quantity as int) + (price as int) * (q as int) <= m
            * (p.quantity as int + q as int)) by (nonlinear_arith)
            requires
                p.average_price <= m,
                price <= m,
                p.quantity >= 0,
                q >= 0,
                m >= 0,
        ;
        assert(m * (p.quantity as int + q as int) <= u64::MAX * (p.quantity as int + q as int))
            by (nonlinear_arith)
            requires
                m <= u64::MAX,
                p.quantity as int + q as int >= 0,
        ;
        assert(u64::MAX * (p.quantity as int + q as int) < u128::MAX) by (nonlinear_arith)
            requires
                p.quantity as int + q as int <= u64::MAX,
        ;
        assert((old_cost + new_cost) as int / (new_qty as int) <= m) by (nonlinear_arith)
            requires
                old_cost + new_cost <= m * (new_qty as int),
                new_qty >= 1,
                m >= 0,
        ;
    }
    let total_cost = old_cost + new_cost;
    let avg = total_cost / (new_qty as u128);
    Position { quantity: new_qty, average_price: avg as u64, updated_at: now, ..*p }
}

/// Sell `q` shares; refused when the position holds fewer than `q`.
pub fn apply_sell(p: &Position, q: u64, now: i64) -> (r: Result<Position, PositionError>)
    requires
        position_wf(*p),
    ensures
        p.quantity < q ==> r == Err::<Position, PositionError>(PositionError::InsufficientShares),
        p.quantity >= q ==> r == Ok::<Position, PositionError>(spec_apply_sell(*p, q, now)),
        r matches Ok(p2) ==> position_wf(p2),
{
    if p.quantity < q {
        return Err(PositionError::InsufficientShares);
    }
    let new_qty = p.quantity - q;
    let avg = if new_qty == 0 {
        0
    } else {
        p.average_price
    };
    Ok(Position { quantity: new_qty, average_price: avg, updated_at: now, ..*p })
}

/// Open a fresh position of `q` shares bought at `price`.
pub fn new_position(
    user_id: i32,
    event_id: i32,
    option_id: i32,
    q: u64,
    price: u64,
    now: i64,
) -> (r: Position)
    requires
        1 <= q,
    ensures
        r == (Position {
            user_id,
            event_id,
            option_id,
            quantity: q,
            average_price: price,
            created_at: now,
            updated_at: now,
        }),
        position_wf(r),
{
    Position {
        user_id,
        event_id,
        option_id,
        quantity: q,
        average_price: price,
        created_at: now,
        updated_at: now,
    }
}

/// Whether the position can cover a sale of `quantity` shares.
pub fn can_sell(p: &Position, quantity: u64) -> (r: bool)
    ensures
        r == (p.quantity >= quantity),
{
    p.quantity >= quantity
}

/// One executed trade's effect on a position: a buy of `quantity` shares at
/// `price`, or a sale of `quantity` shares.
#[derive(Clone, Copy, PartialEq, Eq, Structural, Debug)]
pub struct PositionLeg {
    pub is_buy: bool,
    pub quantity: u64,
    pub price: u64,
    pub time: i64,
}

/// Apply a run of trade legs to a position; `None` when a buy would
/// overflow the machine quantity or a sale exceeds the holding.
pub open spec fn spec_apply_legs(p: Position, legs: Seq<PositionLeg>) -> Option<Position>
    decreases legs.len(),
{
    if legs.len() == 0 {
        Some(p)
    } else {
        let leg = legs[0];
        if leg.is_buy {
            if p.quantity + leg.quantity <= u64::MAX {
                spec_apply_legs(spec_apply_buy(p, leg.quantity, leg.price, leg.time), legs.drop_first())
            } else {
                None
            }
        } else {
            if leg.quantity <= p.quantity {
                spec_apply_legs(spec_apply_sell(p, leg.quantity, leg.time), legs.drop_first())
            } else {
                None
            }
        }
    }
}

/// Net share count of a run of legs: bought minus sold.
pub open spec fn legs_net(legs: Seq<PositionLeg>) -> int
    decreases legs.len(),
{
    if legs.len() == 0 {
        0
    } else {
        (if legs[0].is_buy {
            legs[0].quantity as int
        } else {
            -(legs[0].quantity as int)
        }) + legs_net(legs.drop_first())
    }
}

/// A position's quantity is always the sum of its buys minus the sum of its
/// sales: applying any admissible run of trade legs moves the quantity by
/// exactly the run's net share count.
pub proof fn lemma_position_is_net_of_trades(p: Position, legs: Seq<PositionLeg>)
    requires
        spec_apply_legs(p, legs) is Some,
    ensures
        spec_apply_legs(p, legs)->0.quantity == p.quantity + legs_net(legs),
    decreases legs.len(),
{
    if legs.len() > 0 {
        let leg = legs[0];
        if leg.is_buy {
            lemma_position_is_net_of_trades(
                spec_apply_buy(p, leg.quantity, leg.price, leg.time),
                legs.drop_first(),
            );
        } else {
            lemma_position_is_net_of_trades(spec_apply_sell(p, leg.quantity, leg.time),
                legs.drop_first());
        }
    }
}

} // verus!
