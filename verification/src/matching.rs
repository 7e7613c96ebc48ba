//! Price-time-priority matching: the specification of one matching sweep and
//! the executable engine that refines it.

use vstd::prelude::*;

use crate::book::{
    side_model, BookModel, LevelModel, OrderBookError, PriceLevelQueue,
};
use crate::order::{spec_fill, spec_remaining, Order, OrderSide, OrderStatus, OrderType,
    TimeInForce, Trade};

verus! {

/// One fill taken from the book: the resting (maker) order as it stands
/// after the fill, the level price the trade executed at, and the quantity.
pub struct Fill {
    pub maker: Order,
    pub price: u64,
    pub quantity: u64,
}

/// Result of a matching sweep: the remaining opposite side, the fills in
/// the order they happened, and the incoming (taker) order afterwards.
pub struct MatchModel {
    pub levels: Seq<LevelModel>,
    pub fills: Seq<Fill>,
    pub taker: Order,
}

/// Whether the taker is willing to trade at a level's price. A market order
/// crosses every price; a limit buy crosses prices at or under its limit, a
/// limit sell prices at or over it.
pub open spec fn crosses(taker: Order, level_price: u64) -> bool {
    ||| taker.order_type == OrderType::Market
    ||| match taker.side {
        OrderSide::Buy => level_price <= taker.price,
        OrderSide::Sell => level_price >= taker.price,
    }
}

/// Length of the front level's queue; part of the termination measure.
pub open spec fn spec_first_queue_len(levels: Seq<LevelModel>) -> int {
    if levels.len() > 0 {
        levels[0].orders.len() as int
    } else {
        0
    }
}

/// One matching sweep, defined recursively. While the taker has shares left
/// and the front of the opposite side crosses, the front resting order fills
/// for `min` of the two remainders at the resting price; exhausted makers
/// leave the book, emptied levels disappear.
pub open spec fn spec_match(levels: Seq<LevelModel>, taker: Order, now: i64) -> MatchModel
    decreases levels.len(), spec_first_queue_len(levels),
{
    if taker.filled_quantity >= taker.quantity || levels.len() == 0 || levels[0].orders.len() == 0
        || !crosses(taker, levels[0].price) {
        MatchModel { levels, fills: Seq::empty(), taker }
    } else {
        let maker = levels[0].orders[0];
        let q = vstd::math::min(spec_remaining(taker), spec_remaining(maker));
        let taker1 = spec_fill(taker, q, now);
        let maker1 = spec_fill(maker, q, now);
        let fill = Fill { maker: maker1, price: levels[0].price, quantity: q as u64 };
        if spec_remaining(maker1) > 0 {
            // The taker is exhausted; the maker stays at the front, partly filled.
            let levels1 = levels.update(
                0,
                LevelModel { price: levels[0].price, orders: levels[0].orders.update(0, maker1) },
            );
            MatchModel { levels: levels1, fills: seq![fill], taker: taker1 }
        } else {
            let levels1 = if levels[0].orders.len() == 1 {
                levels.drop_first()
            } else {
                levels.update(
                    0,
                    LevelModel {
                        price: levels[0].price,
                        orders: levels[0].orders.drop_first(),
                    },
                )
            };
            let rest = spec_match(levels1, taker1, now);
            MatchModel { levels: rest.levels, fills: seq![fill] + rest.fills, taker: rest.taker }
        }
    }
}

/// The trade a fill gives rise to, with the random trade identifier
/// normalised to zero. Buyer and seller follow from the taker's side; the
/// price is the resting order's price; the total is exactly price times
/// quantity.
pub open spec fn fill_trade(f: Fill, taker: Order, now: i64) -> Trade {
    Trade {
        id: 0,
        event_id: taker.event_id,
        option_id: taker.option_id,
        buyer_id: if taker.side == OrderSide::Buy {
            taker.user_id
        } else {
            f.maker.user_id
        },
        seller_id: if taker.side == OrderSide::Buy {
            f.maker.user_id
        } else {
            taker.user_id
        },
        buy_order_id: if taker.side == OrderSide::Buy {
            taker.id
        } else {
            f.maker.id
        },
        sell_order_id: if taker.side == OrderSide::Buy {
            f.maker.id
        } else {
            taker.id
        },
        price: f.price,
        quantity: f.quantity,
        total_amount: ((f.price as int) * (f.quantity as int)) as u128,
        timestamp: now,
    }
}

/// Total quantity across a run of fills.
pub open spec fn fills_qty(fills: Seq<Fill>) -> int
    decreases fills.len(),
{
    if fills.len() == 0 {
        0
    } else {
        fills[0].quantity + fills_qty(fills.drop_first())
    }
}

/// Total cost (price times quantity, summed) across a run of fills.
pub open spec fn fills_cost(fills: Seq<Fill>) -> int
    decreases fills.len(),
{
    if fills.len() == 0 {
        0
    } else {
        fills[0].price * fills[0].quantity + fills_cost(fills.drop_first())
    }
}

/// What every fill of a sweep satisfies: a positive quantity within both
/// orders' sizes, the resting order's own price, and a price the taker was
/// willing to cross.
pub open spec fn fill_ok(f: Fill, taker: Order) -> bool {
    &&& 1 <= f.quantity
    &&& f.quantity <= f.maker.quantity
    &&& f.quantity <= taker.quantity
    &&& f.maker.filled_quantity <= f.maker.quantity
    &&& f.price == f.maker.price
    &&& 1 <= f.price
    &&& f.maker.side == crate::book::opposite(taker.side)
    &&& f.maker.event_id == taker.event_id
    &&& f.maker.option_id == taker.option_id
    &&& f.maker.order_type == OrderType::Limit
    &&& crosses(taker, f.price)
}

/// The matching sweep preserves the side invariant and only consumes from
/// the front: afterwards the side is a suffix of the old one by price, its
/// volume has dropped by exactly the filled quantity, no identifier became
/// more frequent, the taker absorbed exactly the filled quantity, and every
/// fill is well-formed. If shares remain, the new front no longer crosses.
pub proof fn lemma_match_props(levels: Seq<LevelModel>, taker: Order, now: i64)
    requires
        crate::book::side_wf(
            levels,
            crate::book::opposite(taker.side),
            taker.event_id,
            taker.option_id,
        ),
        crate::order::order_wf(taker),
    ensures
        ({
            let m = spec_match(levels, taker, now);
            &&& crate::book::side_wf(
                m.levels,
                crate::book::opposite(taker.side),
                taker.event_id,
                taker.option_id,
            )
            &&& m.levels.len() <= levels.len()
            &&& forall|i: int|
                0 <= i < m.levels.len() ==> (#[trigger] m.levels[i]).price == levels[i + levels.len()
                    - m.levels.len()].price
            &&& crate::order::order_wf(m.taker)
            &&& m.taker == (Order {
                filled_quantity: m.taker.filled_quantity,
                status: m.taker.status,
                updated_at: m.taker.updated_at,
                ..taker
            })
            &&& m.taker.filled_quantity == taker.filled_quantity + fills_qty(m.fills)
            &&& 0 <= fills_qty(m.fills) <= spec_remaining(taker)
            &&& (m.fills.len() > 0 ==> fills_qty(m.fills) >= 1)
            &&& m.taker.status == (if m.fills.len() == 0 {
                taker.status
            } else if m.taker.filled_quantity == taker.quantity {
                crate::order::OrderStatus::Filled
            } else {
                crate::order::OrderStatus::PartiallyFilled
            })
            &&& (m.fills.len() == 0 ==> m.levels == levels && m.taker == taker)
            &&& (m.levels.len() > 0 && spec_remaining(m.taker) > 0 ==> !crosses(
                taker,
                m.levels[0].price,
            ))
            &&& crate::book::side_volume(m.levels) == crate::book::side_volume(levels) - fills_qty(
                m.fills,
            )
            &&& forall|id: u128| #[trigger]
                crate::book::side_count(m.levels, id) <= crate::book::side_count(levels, id)
            &&& fills_cost(m.fills) <= u64::MAX * fills_qty(m.fills)
            &&& fills_cost(m.fills) >= fills_qty(m.fills)
            &&& forall|i: int| 0 <= i < m.fills.len() ==> fill_ok(#[trigger] m.fills[i], taker)
        }),
    decreases levels.len(), spec_first_queue_len(levels),
{
    let opp = crate::book::opposite(taker.side);
    let m = spec_match(levels, taker, now);
    if taker.filled_quantity >= taker.quantity || levels.len() == 0 || levels[0].orders.len() == 0
        || !crosses(taker, levels[0].price) {
        assert(fills_qty(m.fills) == 0);
        assert(fills_cost(m.fills) == 0);
        assert(u64::MAX * fills_qty(m.fills) == 0) by (nonlinear_arith)
            requires
                fills_qty(m.fills) == 0,
        ;
    } else {
        let maker = levels[0].orders[0];
        assert(crate::book::level_wf(levels[0], opp, taker.event_id, taker.option_id));
        assert(crate::book::resting_ok(maker, levels[0].price, opp, taker.event_id,
            taker.option_id));
        let q = vstd::math::min(spec_remaining(taker), spec_remaining(maker));
        let taker1 = spec_fill(taker, q, now);
        let maker1 = spec_fill(maker, q, now);
        let fill = Fill { maker: maker1, price: levels[0].price, quantity: q as u64 };
        assert(fill_ok(fill, taker));
        assert(fill.price * fill.quantity <= u64::MAX * fill.quantity) by (nonlinear_arith)
            requires
                fill.price <= u64::MAX,
                fill.quantity >= 0,
        ;
        assert(fill.price * fill.quantity >= fill.quantity) by (nonlinear_arith)
            requires
                fill.price >= 1,
                fill.quantity >= 0,
        ;
        if spec_remaining(maker1) > 0 {
            let lvl1 = LevelModel {
                price: levels[0].price,
                orders: levels[0].orders.update(0, maker1),
            };
            let levels1 = levels.update(0, lvl1);
            assert(m.levels == levels1);
            assert(m.fills =~= seq![fill]);
            assert(m.fills[0] == fill);
            assert(m.fills.drop_first() =~= Seq::<Fill>::empty());
            assert(fills_qty(Seq::<Fill>::empty()) == 0);
            assert(fills_cost(Seq::<Fill>::empty()) == 0);
            assert(fill.quantity == q);
            assert(fills_qty(m.fills) == q);
            assert(fills_cost(m.fills) == fill.price * fill.quantity);
            assert(crate::book::resting_ok(maker1, levels[0].price, opp, taker.event_id,
                taker.option_id));
            assert forall|i: int| 0 <= i < levels1.len() implies crate::book::level_wf(
                #[trigger] levels1[i],
                opp,
                taker.event_id,
                taker.option_id,
            ) by {
                if i != 0 {
                    assert(levels1[i] == levels[i]);
                } else {
                    assert(forall|k: int|
                        1 <= k < lvl1.orders.len() ==> lvl1.orders[k] == levels[0].orders[k]);
                }
            }
            assert(lvl1.orders.drop_first() =~= levels[0].orders.drop_first());
            assert(crate::book::queue_volume(lvl1.orders) == spec_remaining(maker1)
                + crate::book::queue_volume(levels[0].orders.drop_first()));
            assert(levels1.drop_first() =~= levels.drop_first());
            assert(crate::book::side_volume(levels1) == crate::book::side_volume(levels) - q);
            assert forall|id: u128| #[trigger]
                crate::book::side_count(levels1, id) <= crate::book::side_count(levels, id) by {
                assert(crate::book::queue_count(lvl1.orders, id) == crate::book::queue_count(
                    levels[0].orders,
                    id,
                )) by {
                    assert(lvl1.orders.drop_first() =~= levels[0].orders.drop_first());
                    assert(maker1.id == maker.id);
                }
            }
        } else {
            let levels1 = if levels[0].orders.len() == 1 {
                levels.drop_first()
            } else {
                levels.update(
                    0,
                    LevelModel {
                        price: levels[0].price,
                        orders: levels[0].orders.drop_first(),
                    },
                )
            };
            assert(crate::book::side_wf(levels1, opp, taker.event_id, taker.option_id)) by {
                if levels[0].orders.len() == 1 {
                    assert(forall|i: int| 0 <= i < levels1.len() ==> levels1[i] == levels[i + 1]);
                } else {
                    assert forall|i: int| 0 <= i < levels1.len() implies crate::book::level_wf(
                        #[trigger] levels1[i],
                        opp,
                        taker.event_id,
                        taker.option_id,
                    ) by {
                        if i == 0 {
                            assert(forall|k: int|
                                0 <= k < levels1[0].orders.len() ==> levels1[0].orders[k]
                                    == levels[0].orders[k + 1]);
                        } else {
                            assert(levels1[i] == levels[i]);
                        }
                    }
                }
            }
            assert(crate::order::order_wf(taker1));
            lemma_match_props(levels1, taker1, now);
            let rest = spec_match(levels1, taker1, now);
            assert(m.levels == rest.levels);
            assert(m.taker == rest.taker);
            assert(m.fills == seq![fill] + rest.fills);
            assert(m.fills.drop_first() =~= rest.fills);
            assert(m.fills[0] == fill);
            assert(fills_qty(m.fills) == q + fills_qty(rest.fills));
            assert(fills_cost(m.fills) == fill.price * fill.quantity + fills_cost(rest.fills));
            assert(fills_cost(m.fills) <= u64::MAX * fills_qty(m.fills)) by (nonlinear_arith)
                requires
                    fills_cost(m.fills) == fill.price * fill.quantity + fills_cost(rest.fills),
                    fills_qty(m.fills) == fill.quantity + fills_qty(rest.fills),
                    fill.price * fill.quantity <= u64::MAX * fill.quantity,
                    fills_cost(rest.fills) <= u64::MAX * fills_qty(rest.fills),
            ;
            // Volume and counts of the intermediate side.
            assert(crate::book::side_volume(levels1) == crate::book::side_volume(levels) - q) by {
                if levels[0].orders.len() == 1 {
                    assert(crate::book::queue_volume(levels[0].orders) == spec_remaining(maker)
                        + crate::book::queue_volume(levels[0].orders.drop_first()));
                } else {
                    assert(levels1.drop_first() =~= levels.drop_first());
                    assert(crate::book::queue_volume(levels[0].orders) == spec_remaining(maker)
                        + crate::book::queue_volume(levels[0].orders.drop_first()));
                }
            }
            assert forall|id: u128| #[trigger]
                crate::book::side_count(levels1, id) <= crate::book::side_count(levels, id) by {
                if levels[0].orders.len() == 1 {
                    assert(crate::book::queue_count(levels[0].orders, id) >= 0) by {
                        crate::book::lemma_queue_count_nonneg(levels[0].orders, id);
                    }
                } else {
                    assert(levels1.drop_first() =~= levels.drop_first());
                    assert(crate::book::queue_count(levels[0].orders, id)
                        >= crate::book::queue_count(levels[0].orders.drop_first(), id));
                }
            }
            // Price suffix composition.
            assert forall|i: int| 0 <= i < m.levels.len() implies (#[trigger] m.levels[i]).price
                == levels[i + levels.len() - m.levels.len()].price by {
                let shift1 = levels1.len() - m.levels.len();
                assert(m.levels[i].price == levels1[i + shift1].price);
                if levels[0].orders.len() == 1 {
                    assert(levels1[i + shift1] == levels[i + shift1 + 1]);
                } else {
                    if i + shift1 != 0 {
                        assert(levels1[i + shift1] == levels[i + shift1]);
                    }
                }
            }
            assert forall|i: int| 0 <= i < m.fills.len() implies fill_ok(
                #[trigger] m.fills[i],
                taker,
            ) by {
                if i == 0 {
                    assert(m.fills[0] == fill);
                } else {
                    assert(m.fills[i] == rest.fills[i - 1]);
                    assert(fill_ok(rest.fills[i - 1], taker1));
                }
            }
        }
    }
}

/// Liquidity available to an order: the unfilled shares at consecutive
/// crossing levels from the front of the opposite side.
pub open spec fn spec_available(levels: Seq<LevelModel>, taker: Order) -> int
    decreases levels.len(),
{
    if levels.len() == 0 {
        0
    } else if !crosses(taker, levels[0].price) {
        0
    } else {
        crate::book::queue_volume(levels[0].orders) + spec_available(levels.drop_first(), taker)
    }
}

/// Available liquidity is between zero and the side's whole volume.
pub proof fn lemma_available_bounds(levels: Seq<LevelModel>, taker: Order, side: OrderSide, eid: i32, oid: i32)
    requires
        forall|i: int| 0 <= i < levels.len() ==> crate::book::level_wf(
            #[trigger] levels[i],
            side,
            eid,
            oid,
        ),
    ensures
        0 <= spec_available(levels, taker),
        spec_available(levels, taker) <= crate::book::side_volume(levels),
    decreases levels.len(),
{
    if levels.len() == 0 {
    } else {
        assert(forall|i: int| 0 <= i < levels.drop_first().len() ==> levels.drop_first()[i]
            == levels[i + 1]);
        lemma_available_bounds(levels.drop_first(), taker, side, eid, oid);
        crate::book::lemma_queue_volume_nonneg(levels[0].orders);
        crate::book::lemma_side_volume_nonneg(levels.drop_first(), side, eid, oid);
    }
}

/// When the available liquidity covers the taker's remainder, the sweep
/// fills the taker completely.
pub proof fn lemma_available_implies_filled(levels: Seq<LevelModel>, taker: Order, now: i64)
    requires
        crate::book::side_wf(
            levels,
            crate::book::opposite(taker.side),
            taker.event_id,
            taker.option_id,
        ),
        crate::order::order_wf(taker),
        spec_available(levels, taker) >= spec_remaining(taker),
    ensures
        spec_match(levels, taker, now).taker.filled_quantity == taker.quantity,
    decreases levels.len(), spec_first_queue_len(levels),
{
    let opp = crate::book::opposite(taker.side);
    let m = spec_match(levels, taker, now);
    if taker.filled_quantity >= taker.quantity {
    } else if levels.len() == 0 {
    } else if !crosses(taker, levels[0].price) {
    } else {
        assert(crate::book::level_wf(levels[0], opp, taker.event_id, taker.option_id));
        let maker = levels[0].orders[0];
        let q = vstd::math::min(spec_remaining(taker), spec_remaining(maker));
        let taker1 = spec_fill(taker, q, now);
        let maker1 = spec_fill(maker, q, now);
        if spec_remaining(maker1) > 0 {
            assert(q == spec_remaining(taker));
        } else {
            let levels1 = if levels[0].orders.len() == 1 {
                levels.drop_first()
            } else {
                levels.update(
                    0,
                    LevelModel {
                        price: levels[0].price,
                        orders: levels[0].orders.drop_first(),
                    },
                )
            };
            assert(crate::book::side_wf(levels1, opp, taker.event_id, taker.option_id)) by {
                if levels[0].orders.len() == 1 {
                    assert(forall|i: int| 0 <= i < levels1.len() ==> levels1[i] == levels[i + 1]);
                } else {
                    assert forall|i: int| 0 <= i < levels1.len() implies crate::book::level_wf(
                        #[trigger] levels1[i],
                        opp,
                        taker.event_id,
                        taker.option_id,
                    ) by {
                        if i == 0 {
                            assert(forall|k: int|
                                0 <= k < levels1[0].orders.len() ==> levels1[0].orders[k]
                                    == levels[0].orders[k + 1]);
                        } else {
                            assert(levels1[i] == levels[i]);
                        }
                    }
                }
            }
            assert(spec_available(levels1, taker1) >= spec_remaining(taker1)) by {
                assert(crate::book::queue_volume(levels[0].orders) == spec_remaining(maker)
                    + crate::book::queue_volume(levels[0].orders.drop_first()));
                if levels[0].orders.len() == 1 {
                    assert(crate::book::queue_volume(levels[0].orders.drop_first()) == 0) by {
                        assert(levels[0].orders.drop_first().len() == 0);
                    }
                    assert(levels1 =~= levels.drop_first());
                    assert(spec_available(levels, taker) == crate::book::queue_volume(
                        levels[0].orders,
                    ) + spec_available(levels1, taker));
                    lemma_available_same_limit(levels1, taker, taker1);
                } else {
                    assert(levels1.drop_first() =~= levels.drop_first());
                    assert(crosses(taker, levels1[0].price));
                    assert(spec_available(levels1, taker) == crate::book::queue_volume(
                        levels1[0].orders,
                    ) + spec_available(levels.drop_first(), taker));
                    lemma_available_same_limit(levels1, taker, taker1);
                }
            }
            lemma_available_implies_filled(levels1, taker1, now);
        }
    }
}

/// Availability only looks at the taker's side, type and limit price.
pub proof fn lemma_available_same_limit(levels: Seq<LevelModel>, a: Order, b: Order)
    requires
        a.side == b.side,
        a.order_type == b.order_type,
        a.price == b.price,
    ensures
        spec_available(levels, a) == spec_available(levels, b),
    decreases levels.len(),
{
    if levels.len() > 0 {
        lemma_available_same_limit(levels.drop_first(), a, b);
    }
}

/// Executable count of the liquidity available to `taker` from level `i` on.
pub(crate) fn available_rec(levels: &Vec<PriceLevelQueue>, i: usize, taker: &Order) -> (r: u128)
    requires
        i <= levels@.len(),
        forall|k: int| 0 <= k < levels@.len() ==> crate::book::level_wf(
            #[trigger] side_model(levels@)[k],
            crate::book::opposite(taker.side),
            taker.event_id,
            taker.option_id,
        ),
        crate::book::side_volume(side_model(levels@).skip(i as int))
            <= crate::book::MAX_BOOK_VOLUME,
    ensures
        r == spec_available(side_model(levels@).skip(i as int), *taker),
    decreases levels@.len() - i,
{
    let ghost tail = side_model(levels@).skip(i as int);
    proof {
        assert(forall|k: int|
            0 <= k < tail.len() ==> #[trigger] tail[k] == side_model(levels@)[k + i]);
        lemma_available_bounds(tail, *taker, crate::book::opposite(taker.side), taker.event_id,
            taker.option_id);
    }
    if i == levels.len() {
        return 0;
    }
    let lvl_price = levels[i].price;
    let cross = match taker.side {
        OrderSide::Buy => taker.order_type == OrderType::Market || lvl_price <= taker.price,
        OrderSide::Sell => taker.order_type == OrderType::Market || lvl_price >= taker.price,
    };
    if !cross {
        return 0;
    }
    proof {
        assert(tail[0] == levels@[i as int]@);
        assert(tail.drop_first() =~= side_model(levels@).skip(i as int + 1));
        assert(forall|k: int|
            0 <= k < tail.drop_first().len() ==> #[trigger] tail.drop_first()[k] == side_model(
                levels@,
            )[k + i + 1]);
        crate::book::lemma_side_volume_nonneg(tail.drop_first(), crate::book::opposite(taker.side),
            taker.event_id, taker.option_id);
        crate::book::lemma_queue_volume_nonneg(levels@[i as int]@.orders);
        assert(levels@[i as int]@.orders.skip(0) =~= levels@[i as int]@.orders);
        lemma_available_bounds(tail.drop_first(), *taker, crate::book::opposite(taker.side),
            taker.event_id, taker.option_id);
        assert(crate::book::side_volume(tail) == crate::book::queue_volume(tail[0].orders)
            + crate::book::side_volume(tail.drop_first()));
    }
    let head = crate::book::queue_volume_rec(&levels[i].orders, 0);
    let rest = available_rec(levels, i + 1, taker);
    head + rest
}

/// Executable matching sweep against one side of the book. Refines
/// `spec_match`: the side, the taker and the appended trades afterwards are
/// exactly what the specification says, trade identifiers aside.
pub(crate) fn match_rec(
    levels: &mut Vec<PriceLevelQueue>,
    taker: &mut Order,
    trades: &mut Vec<Trade>,
    now: i64,
)
    requires
        crate::book::side_wf(
            side_model(old(levels)@),
            crate::book::opposite(old(taker).side),
            old(taker).event_id,
            old(taker).option_id,
        ),
        crate::order::order_wf(*old(taker)),
    ensures
        ({
            let m = spec_match(side_model(old(levels)@), *old(taker), now);
            &&& side_model(final(levels)@) == m.levels
            &&& *final(taker) == m.taker
            &&& final(trades)@.len() == old(trades)@.len() + m.fills.len()
            &&& forall|i: int| 0 <= i < old(trades)@.len() ==> final(trades)@[i] == old(trades)@[i]
            &&& forall|i: int|
                0 <= i < m.fills.len() ==> crate::order::trade_core(
                    #[trigger] final(trades)@[old(trades)@.len() + i],
                ) == fill_trade(m.fills[i], *old(taker), now)
        }),
    decreases levels@.len(), spec_first_queue_len(side_model(levels@)),
{
    let ghost levels0 = side_model(levels@);
    let ghost taker0 = *taker;
    if taker.filled_quantity >= taker.quantity {
        return ;
    }
    if levels.len() == 0 {
        return ;
    }
    let lvl_price = levels[0].price;
    let cross = match taker.side {
        OrderSide::Buy => taker.order_type == OrderType::Market || lvl_price <= taker.price,
        OrderSide::Sell => taker.order_type == OrderType::Market || lvl_price >= taker.price,
    };
    if !cross {
        assert(!crosses(taker0, levels0[0].price));
        return ;
    }
    assert(crate::book::level_wf(levels0[0], crate::book::opposite(taker0.side), taker0.event_id,
        taker0.option_id));
    let mut lvl = levels.remove(0);
    let mut maker = lvl.orders.remove(0);
    assert(crate::book::resting_ok(maker, lvl.price, crate::book::opposite(taker0.side),
        taker0.event_id, taker0.option_id));
    let tr = taker.remaining_quantity();
    let mr = maker.remaining_quantity();
    let q = if tr < mr {
        tr
    } else {
        mr
    };
    let ghost qi = vstd::math::min(spec_remaining(taker0), spec_remaining(levels0[0].orders[0]));
    assert(q == qi);
    taker.fill(q, now);
    maker.fill(q, now);
    let ghost maker1 = spec_fill(levels0[0].orders[0], qi, now);
    assert(maker == maker1);
    let tid = crate::ids::fresh_id();
    let trade = Trade {
        id: tid,
        event_id: taker.event_id,
        option_id: taker.option_id,
        buyer_id: if taker.side == OrderSide::Buy {
            taker.user_id
        } else {
            maker.user_id
        },
        seller_id: if taker.side == OrderSide::Buy {
            maker.user_id
        } else {
            taker.user_id
        },
        buy_order_id: if taker.side == OrderSide::Buy {
            taker.id
        } else {
            maker.id
        },
        sell_order_id: if taker.side == OrderSide::Buy {
            maker.id
        } else {
            taker.id
        },
        price: lvl_price,
        quantity: q,
        total_amount: {
            proof {
                assert((lvl_price as int) * (q as int) <= u128::MAX) by (nonlinear_arith)
                    requires
                        lvl_price <= u64::MAX,
                        q <= u64::MAX,
                ;
            }
            (lvl_price as u128) * (q as u128)
        },
        timestamp: now,
    };
    trades.push(trade);
    let ghost fill = Fill { maker: maker1, price: levels0[0].price, quantity: qi as u64 };
    assert(crate::order::trade_core(trade) == fill_trade(fill, taker0, now));
    if maker.quantity > maker.filled_quantity {
        lvl.orders.insert(0, maker);
        levels.insert(0, lvl);
        proof {
            let m = spec_match(levels0, taker0, now);
            assert(lvl.orders@ =~= levels0[0].orders.update(0, maker1));
            assert(side_model(levels@) =~= levels0.update(
                0,
                LevelModel { price: levels0[0].price, orders: levels0[0].orders.update(0, maker1) },
            ));
        }
        return ;
    }
    if lvl.orders.len() > 0 {
        levels.insert(0, lvl);
    }
    let ghost levels1 = if levels0[0].orders.len() == 1 {
        levels0.drop_first()
    } else {
        levels0.update(
            0,
            LevelModel { price: levels0[0].price, orders: levels0[0].orders.drop_first() },
        )
    };
    proof {
        if levels0[0].orders.len() == 1 {
            assert(side_model(levels@) =~= levels1);
        } else {
            assert(lvl.orders@ =~= levels0[0].orders.drop_first());
            assert(side_model(levels@) =~= levels1);
        }
        assert forall|i: int| 0 <= i < levels1.len() implies crate::book::level_wf(
            #[trigger] levels1[i],
            crate::book::opposite(taker0.side),
            taker0.event_id,
            taker0.option_id,
        ) by {
            if levels0[0].orders.len() == 1 {
                assert(levels1[i] == levels0[i + 1]);
            } else if i == 0 {
                assert(forall|k: int|
                    0 <= k < levels1[0].orders.len() ==> levels1[0].orders[k]
                        == levels0[0].orders[k + 1]);
            }
        }
        assert(crate::book::side_wf(levels1, crate::book::opposite(taker0.side), taker0.event_id,
            taker0.option_id)) by {
            if levels0[0].orders.len() == 1 {
                assert(forall|i: int| 0 <= i < levels1.len() ==> levels1[i] == levels0[i + 1]);
            }
        }
        assert(crate::order::order_wf(*taker));
    }
    let ghost trades_mid = trades@;
    let ghost taker_mid = *taker;
    match_rec(levels, taker, trades, now);
    proof {
        let m = spec_match(levels0, taker0, now);
        let rest = spec_match(levels1, taker_mid, now);
        assert(m.levels == rest.levels);
        assert(m.taker == rest.taker);
        assert(m.fills =~= seq![fill] + rest.fills);
        assert forall|i: int| 0 <= i < m.fills.len() implies crate::order::trade_core(
            #[trigger] trades@[old(trades)@.len() + i],
        ) == fill_trade(m.fills[i], taker0, now) by {
            if i == 0 {
                assert(trades@[old(trades)@.len() as int] == trades_mid[old(trades)@.len() as int]);
                assert(trades_mid[old(trades)@.len() as int] == trade);
            } else {
                assert(trades@[trades_mid.len() + (i - 1)] == trades@[old(trades)@.len() + i]);
                assert(crate::order::trade_core(trades@[trades_mid.len() + (i - 1)]) == fill_trade(
                    rest.fills[i - 1],
                    taker_mid,
                    now,
                ));
                assert(fill_trade(rest.fills[i - 1], taker_mid, now) == fill_trade(
                    m.fills[i],
                    taker0,
                    now,
                ));
            }
        }
    }
}

/// Total cost (price times quantity, summed) across trades.
pub open spec fn trades_cost(ts: Seq<Trade>) -> int
    decreases ts.len(),
{
    if ts.len() == 0 {
        0
    } else {
        ts[0].price * ts[0].quantity + trades_cost(ts.drop_first())
    }
}

/// Total quantity across trades.
pub open spec fn trades_qty(ts: Seq<Trade>) -> int
    decreases ts.len(),
{
    if ts.len() == 0 {
        0
    } else {
        ts[0].quantity + trades_qty(ts.drop_first())
    }
}

/// Trades that mirror fills (identifiers aside) have the fills' sums.
pub proof fn lemma_trades_match_fills(ts: Seq<Trade>, fills: Seq<Fill>, taker: Order, now: i64)
    requires
        ts.len() == fills.len(),
        forall|i: int| 0 <= i < fills.len() ==> crate::order::trade_core(#[trigger] ts[i])
            == fill_trade(fills[i], taker, now),
    ensures
        trades_cost(ts) == fills_cost(fills),
        trades_qty(ts) == fills_qty(fills),
    decreases ts.len(),
{
    if ts.len() > 0 {
        assert(crate::order::trade_core(ts[0]) == fill_trade(fills[0], taker, now));
        assert(ts[0].price == fills[0].price && ts[0].quantity == fills[0].quantity);
        assert(forall|i: int|
            0 <= i < fills.drop_first().len() ==> #[trigger] fills.drop_first()[i] == fills[i
                + 1]);
        assert(forall|i: int|
            0 <= i < ts.drop_first().len() ==> #[trigger] ts.drop_first()[i] == ts[i + 1]);
        lemma_trades_match_fills(ts.drop_first(), fills.drop_first(), taker, now);
    }
}

/// Trade sums are non-negative.
pub proof fn lemma_trades_sums_nonneg(ts: Seq<Trade>)
    ensures
        trades_cost(ts) >= 0,
        trades_qty(ts) >= 0,
    decreases ts.len(),
{
    if ts.len() > 0 {
        assert(ts[0].price * ts[0].quantity >= 0) by (nonlinear_arith)
            requires
                ts[0].price >= 0,
                ts[0].quantity >= 0,
        ;
        lemma_trades_sums_nonneg(ts.drop_first());
    }
}

/// Executable cost and quantity sums over trades, from position `i` on.
pub(crate) fn trades_sums_rec(ts: &Vec<Trade>, i: usize) -> (r: (u128, u128))
    requires
        i <= ts@.len(),
        trades_cost(ts@.skip(i as int)) <= u128::MAX,
        trades_qty(ts@.skip(i as int)) <= u128::MAX,
    ensures
        r.0 == trades_cost(ts@.skip(i as int)),
        r.1 == trades_qty(ts@.skip(i as int)),
    decreases ts@.len() - i,
{
    if i == ts.len() {
        return (0, 0);
    }
    proof {
        assert(ts@.skip(i as int)[0] == ts@[i as int]);
        assert(ts@.skip(i as int).drop_first() =~= ts@.skip(i as int + 1));
        lemma_trades_sums_nonneg(ts@.skip(i as int + 1));
        assert(ts@[i as int].price * ts@[i as int].quantity >= 0) by (nonlinear_arith)
            requires
                ts@[i as int].price >= 0,
                ts@[i as int].quantity >= 0,
        ;
        assert((ts@[i as int].price as int) * (ts@[i as int].quantity as int) <= u128::MAX)
            by (nonlinear_arith)
            requires
                ts@[i as int].price <= u64::MAX,
                ts@[i as int].quantity <= u64::MAX,
        ;
    }
    let head_cost = (ts[i].price as u128) * (ts[i].quantity as u128);
    let head_qty = ts[i].quantity as u128;
    let (rest_cost, rest_qty) = trades_sums_rec(ts, i + 1);
    (head_cost + rest_cost, head_qty + rest_qty)
}

/// The trade log keeps at most the last `TRADE_LOG_CAP` trades.
pub open spec fn spec_trade_log(log: Seq<Trade>) -> Seq<Trade> {
    if log.len() <= crate::book::TRADE_LOG_CAP {
        log
    } else {
        log.skip(log.len() - crate::book::TRADE_LOG_CAP)
    }
}

/// Append all trades from `src` (position `i` on) to `dst`.
pub(crate) fn push_all(dst: &mut Vec<Trade>, src: &Vec<Trade>, i: usize)
    requires
        i <= src@.len(),
    ensures
        final(dst)@ == old(dst)@ + src@.skip(i as int),
    decreases src@.len() - i,
{
    if i == src.len() {
        proof {
            assert(old(dst)@ + src@.skip(i as int) =~= old(dst)@);
        }
        return ;
    }
    let ghost d0 = dst@;
    dst.push(src[i]);
    push_all(dst, src, i + 1);
    proof {
        assert(dst@ =~= d0 + src@.skip(i as int));
    }
}

/// Drop trades from the front until at most `TRADE_LOG_CAP` remain.
pub(crate) fn trim_log(v: &mut Vec<Trade>)
    ensures
        final(v)@ == spec_trade_log(old(v)@),
    decreases old(v)@.len(),
{
    if v.len() <= crate::book::TRADE_LOG_CAP {
        return ;
    }
    let ghost v0 = v@;
    v.remove(0);
    proof {
        assert(v@ =~= v0.drop_first());
    }
    trim_log(v);
    proof {
        assert(spec_trade_log(v0.drop_first()) =~= spec_trade_log(v0));
    }
}

/// The complete effect of submitting one order against a book model:
/// validation, the fill-or-kill pre-check, the matching sweep, the market
/// average price, and the time-in-force handling of any remainder.
pub struct SubmitModel {
    pub buys: Seq<LevelModel>,
    pub sells: Seq<LevelModel>,
    pub last_trade_price: Option<u64>,
    pub taker: Order,
    pub fills: Seq<Fill>,
    pub error: Option<OrderBookError>,
    pub fok_rejected: bool,
}

/// A refused submission: the book and the order stand untouched.
pub open spec fn spec_submit_fail(m: BookModel, o: Order, e: OrderBookError) -> SubmitModel {
    SubmitModel {
        buys: m.buys,
        sells: m.sells,
        last_trade_price: m.last_trade_price,
        taker: o,
        fills: Seq::empty(),
        error: Some(e),
        fok_rejected: false,
    }
}

/// What submitting `o` at time `now` does to a book for (eid, oid).
/// Rejections leave everything unchanged. A fill-or-kill order whose
/// quantity exceeds the crossing liquidity is rejected without trades.
/// Otherwise the order matches under price-time priority; a market order
/// takes the volume-weighted average of its fills as its recorded price and
/// never rests; a good-till-cancelled limit remainder joins the book at its
/// price; an immediate-or-cancel remainder is cancelled.
pub open spec fn spec_submit(m: BookModel, eid: i32, oid: i32, o: Order, now: i64) -> SubmitModel {
    if o.event_id != eid || o.option_id != oid {
        spec_submit_fail(m, o, OrderBookError::BookMismatch)
    } else if o.quantity == 0 {
        spec_submit_fail(m, o, OrderBookError::InvalidQuantity)
    } else if o.price == 0 {
        spec_submit_fail(m, o, OrderBookError::InvalidPrice)
    } else if crate::book::side_count(m.buys, o.id) + crate::book::side_count(m.sells, o.id)
        > 0 {
        spec_submit_fail(m, o, OrderBookError::DuplicateOrderId)
    } else if crate::book::side_volume(m.buys) + crate::book::side_volume(m.sells) + o.quantity
        > crate::book::MAX_BOOK_VOLUME {
        spec_submit_fail(m, o, OrderBookError::CapacityExceeded)
    } else if o.time_in_force == TimeInForce::FOK && spec_available(
        if o.side == OrderSide::Buy {
            m.sells
        } else {
            m.buys
        },
        o,
    ) < o.quantity {
        SubmitModel {
            buys: m.buys,
            sells: m.sells,
            last_trade_price: m.last_trade_price,
            taker: Order { status: OrderStatus::Rejected, updated_at: now, ..o },
            fills: Seq::empty(),
            error: None,
            fok_rejected: true,
        }
    } else {
        let opp = if o.side == OrderSide::Buy {
            m.sells
        } else {
            m.buys
        };
        let own = if o.side == OrderSide::Buy {
            m.buys
        } else {
            m.sells
        };
        let mm = spec_match(opp, o, now);
        if o.order_type == OrderType::Market && mm.fills.len() == 0 {
            spec_submit_fail(m, o, OrderBookError::NoLiquidity)
        } else {
            let ltp = if mm.fills.len() > 0 {
                Some(mm.fills.last().price)
            } else {
                m.last_trade_price
            };
            let taker2 = if o.order_type == OrderType::Market {
                Order { price: (fills_cost(mm.fills) / fills_qty(mm.fills)) as u64, ..mm.taker }
            } else if mm.taker.filled_quantity < mm.taker.quantity && o.time_in_force
                == TimeInForce::IOC {
                Order { status: OrderStatus::Cancelled, updated_at: now, ..mm.taker }
            } else {
                mm.taker
            };
            let own2 = if o.order_type == OrderType::Limit && o.time_in_force == TimeInForce::GTC
                && mm.taker.filled_quantity < mm.taker.quantity {
                crate::book::spec_insert(own, mm.taker)
            } else {
                own
            };
            SubmitModel {
                buys: if o.side == OrderSide::Buy {
                    own2
                } else {
                    mm.levels
                },
                sells: if o.side == OrderSide::Buy {
                    mm.levels
                } else {
                    own2
                },
                last_trade_price: ltp,
                taker: taker2,
                fills: mm.fills,
                error: None,
                fok_rejected: false,
            }
        }
    }
}

/// Submitting keeps the book invariant: both sides stay well-formed and
/// sorted, the book stays uncrossed, identifiers stay unique, and the total
/// volume stays within `MAX_BOOK_VOLUME`.
pub proof fn lemma_submit_book_wf(m: BookModel, eid: i32, oid: i32, o: Order, now: i64)
    requires
        crate::book::side_wf(m.buys, OrderSide::Buy, eid, oid),
        crate::book::side_wf(m.sells, OrderSide::Sell, eid, oid),
        crate::book::no_cross(m.buys, m.sells),
        forall|x: u128| crate::book::side_count(m.buys, x) + crate::book::side_count(m.sells, x)
            <= 1,
        crate::book::side_volume(m.buys) + crate::book::side_volume(m.sells)
            <= crate::book::MAX_BOOK_VOLUME,
        o.filled_quantity == 0,
        o.status == OrderStatus::Pending,
    ensures
        ({
            let sm = spec_submit(m, eid, oid, o, now);
            &&& crate::book::side_wf(sm.buys, OrderSide::Buy, eid, oid)
            &&& crate::book::side_wf(sm.sells, OrderSide::Sell, eid, oid)
            &&& crate::book::no_cross(sm.buys, sm.sells)
            &&& forall|x: u128|
                crate::book::side_count(sm.buys, x) + crate::book::side_count(sm.sells, x) <= 1
            &&& crate::book::side_volume(sm.buys) + crate::book::side_volume(sm.sells)
                <= crate::book::MAX_BOOK_VOLUME
        }),
{
    let sm = spec_submit(m, eid, oid, o, now);
    if o.event_id != eid || o.option_id != oid || o.quantity == 0 || o.price == 0
        || crate::book::side_count(m.buys, o.id) + crate::book::side_count(m.sells, o.id) > 0
        || crate::book::side_volume(m.buys) + crate::book::side_volume(m.sells) + o.quantity
        > crate::book::MAX_BOOK_VOLUME {
        // A refused submission leaves the book as it was.
    } else if o.time_in_force == TimeInForce::FOK && spec_available(
        if o.side == OrderSide::Buy {
            m.sells
        } else {
            m.buys
        },
        o,
    ) < o.quantity {
    } else {
        let opp = if o.side == OrderSide::Buy {
            m.sells
        } else {
            m.buys
        };
        let own = if o.side == OrderSide::Buy {
            m.buys
        } else {
            m.sells
        };
        let opp_side = crate::book::opposite(o.side);
        lemma_match_props(opp, o, now);
        let mm = spec_match(opp, o, now);
        if o.order_type == OrderType::Market && mm.fills.len() == 0 {
        } else {
            let inserted = o.order_type == OrderType::Limit && o.time_in_force
                == TimeInForce::GTC && mm.taker.filled_quantity < mm.taker.quantity;
            let own2 = if inserted {
                crate::book::spec_insert(own, mm.taker)
            } else {
                own
            };
            crate::book::lemma_side_count_nonneg(m.buys, o.id);
            crate::book::lemma_side_count_nonneg(m.sells, o.id);
            if inserted {
                assert(crate::book::resting_ok(mm.taker, mm.taker.price, o.side, eid, oid));
                crate::book::lemma_insert_props(own, mm.taker, eid, oid);
            }
            // Identifier uniqueness.
            assert forall|x: u128|
                crate::book::side_count(sm.buys, x) + crate::book::side_count(sm.sells, x)
                    <= 1 by {
                assert(crate::book::side_count(mm.levels, x) <= crate::book::side_count(opp, x));
                crate::book::lemma_side_count_nonneg(mm.levels, x);
                crate::book::lemma_side_count_nonneg(own, x);
                crate::book::lemma_side_count_nonneg(opp, x);
                if inserted {
                    assert(crate::book::side_count(own2, x) == crate::book::side_count(own, x) + (
                    if mm.taker.id == x {
                        1int
                    } else {
                        0int
                    }));
                }
            }
            // Volume bound.
            assert(crate::book::side_volume(mm.levels) == crate::book::side_volume(opp)
                - fills_qty(mm.fills));
            if inserted {
                assert(crate::book::side_volume(own2) == crate::book::side_volume(own)
                    + spec_remaining(mm.taker));
                assert(spec_remaining(mm.taker) == o.quantity - fills_qty(mm.fills));
            }
            // The book stays uncrossed.
            if sm.buys.len() > 0 && sm.sells.len() > 0 {
                let shift = opp.len() - mm.levels.len();
                if mm.levels.len() > 0 {
                    assert(mm.levels[0].price == opp[shift].price);
                    if shift > 0 {
                        assert(crate::book::price_better(opp_side, opp[0].price,
                            opp[shift].price));
                    }
                }
                if inserted {
                    assert(mm.levels.len() > 0);
                    assert(!crosses(o, mm.levels[0].price));
                    if own.len() > 0 {
                        assert(crate::book::no_cross(m.buys, m.sells));
                        assert(opp.len() > 0);
                    }
                } else {
                    assert(own2 == own);
                }
            }
        }
    }
}

/// The first-in-first-out discipline of one matching sweep: the new side
/// arises from the old one by consuming whole levels from the front, then
/// whole orders from the front of the next level, then possibly part of
/// the one order at that level's front. No order ever fills before the
/// orders that arrived ahead of it at its price, and no level trades
/// before a better-priced one.
pub open spec fn consumed_from_front(
    old_levels: Seq<LevelModel>,
    new_levels: Seq<LevelModel>,
) -> bool {
    let shift = old_levels.len() - new_levels.len();
    &&& new_levels.len() <= old_levels.len()
    &&& forall|i: int| 1 <= i < new_levels.len() ==> #[trigger] new_levels[i] == old_levels[i
        + shift]
    &&& (new_levels.len() > 0 ==> {
        let nl = new_levels[0];
        let ol = old_levels[shift];
        &&& nl.price == ol.price
        &&& nl.orders.len() <= ol.orders.len()
        &&& ({
            let d = ol.orders.len() - nl.orders.len();
            &&& forall|j: int| 1 <= j < nl.orders.len() ==> #[trigger] nl.orders[j] == ol.orders[j
                + d]
            &&& (nl.orders.len() > 0 ==> {
                let no = nl.orders[0];
                let oo = ol.orders[d];
                &&& no == (Order {
                    filled_quantity: no.filled_quantity,
                    status: no.status,
                    updated_at: no.updated_at,
                    ..oo
                })
                &&& no.filled_quantity >= oo.filled_quantity
            })
        })
    })
}

/// Consuming from the front composes.
pub proof fn lemma_consumed_from_front_trans(
    a: Seq<LevelModel>,
    b: Seq<LevelModel>,
    c: Seq<LevelModel>,
)
    requires
        consumed_from_front(a, b),
        consumed_from_front(b, c),
    ensures
        consumed_from_front(a, c),
{
    let sab = a.len() - b.len();
    let sbc = b.len() - c.len();
    assert forall|i: int| 1 <= i < c.len() implies #[trigger] c[i] == a[i + (a.len()
        - c.len())] by {
        assert(c[i] == b[i + sbc]);
        assert(b[i + sbc] == a[i + sbc + sab]);
    }
    if c.len() > 0 {
        if sbc == 0 {
            assert(c[0].price == b[0].price && b[0].price == a[sab].price);
        } else {
            assert(c[0].price == b[sbc].price);
            assert(b[sbc] == a[sbc + sab]);
        }
    }
}

/// A matching sweep consumes strictly from the front: levels in price
/// order, and orders within a level in arrival order.
pub proof fn lemma_match_fifo(levels: Seq<LevelModel>, taker: Order, now: i64)
    ensures
        consumed_from_front(levels, spec_match(levels, taker, now).levels),
    decreases levels.len(), spec_first_queue_len(levels),
{
    let m = spec_match(levels, taker, now);
    if taker.filled_quantity >= taker.quantity || levels.len() == 0 || levels[0].orders.len() == 0
        || !crosses(taker, levels[0].price) {
        assert(consumed_from_front(levels, m.levels));
    } else {
        let maker = levels[0].orders[0];
        let q = vstd::math::min(spec_remaining(taker), spec_remaining(maker));
        let taker1 = spec_fill(taker, q, now);
        let maker1 = spec_fill(maker, q, now);
        if spec_remaining(maker1) > 0 {
            let lvl1 = LevelModel {
                price: levels[0].price,
                orders: levels[0].orders.update(0, maker1),
            };
            assert(consumed_from_front(levels, levels.update(0, lvl1)));
        } else {
            let levels1 = if levels[0].orders.len() == 1 {
                levels.drop_first()
            } else {
                levels.update(
                    0,
                    LevelModel {
                        price: levels[0].price,
                        orders: levels[0].orders.drop_first(),
                    },
                )
            };
            assert(consumed_from_front(levels, levels1)) by {
                if levels[0].orders.len() == 1 {
                    assert(forall|i: int|
                        0 <= i < levels1.len() ==> #[trigger] levels1[i] == levels[i + 1]);
                    if levels1.len() > 0 {
                        assert(levels1[0] == levels[1]);
                        assert(levels1[0].orders.len() <= levels[1].orders.len());
                    }
                } else {
                    assert(forall|j: int|
                        0 <= j < levels1[0].orders.len() ==> #[trigger] levels1[0].orders[j]
                            == levels[0].orders[j + 1]);
                }
            }
            lemma_match_fifo(levels1, taker1, now);
            lemma_consumed_from_front_trans(levels, levels1, m.levels);
        }
    }
}

/// Matching determinism: from one book state and one incoming order, any
/// two runs of `submit_order` leave the same book and the same final order,
/// and produce trades equal in every field except the randomly drawn trade
/// identifier. The book and order are pinned to `spec_submit` by the
/// contract; this law adds that the two trade runs agree once identifiers
/// are normalised.
pub proof fn lemma_matching_deterministic(
    m: BookModel,
    eid: i32,
    oid: i32,
    o: Order,
    now: i64,
    tr1: Seq<Trade>,
    tr2: Seq<Trade>,
)
    requires
        tr1.len() == spec_submit(m, eid, oid, o, now).fills.len(),
        tr2.len() == spec_submit(m, eid, oid, o, now).fills.len(),
        forall|i: int| 0 <= i < tr1.len() ==> crate::order::trade_core(#[trigger] tr1[i])
            == fill_trade(spec_submit(m, eid, oid, o, now).fills[i], o, now),
        forall|i: int| 0 <= i < tr2.len() ==> crate::order::trade_core(#[trigger] tr2[i])
            == fill_trade(spec_submit(m, eid, oid, o, now).fills[i], o, now),
    ensures
        tr1.map_values(|t: Trade| crate::order::trade_core(t)) == tr2.map_values(
            |t: Trade| crate::order::trade_core(t),
        ),
{
    assert(tr1.map_values(|t: Trade| crate::order::trade_core(t)) =~= tr2.map_values(
        |t: Trade| crate::order::trade_core(t),
    ));
}

/// Fill-or-kill exactness: a fill-or-kill order whose quantity is covered
/// by the liquidity at crossing prices fills completely; one unit beyond
/// that liquidity is rejected outright, with no trades and the book
/// untouched.
pub proof fn lemma_fok_exactness(m: BookModel, eid: i32, oid: i32, o: Order, now: i64)
    requires
        crate::book::side_wf(m.buys, OrderSide::Buy, eid, oid),
        crate::book::side_wf(m.sells, OrderSide::Sell, eid, oid),
        o.time_in_force == TimeInForce::FOK,
        o.event_id == eid,
        o.option_id == oid,
        o.filled_quantity == 0,
        o.status == OrderStatus::Pending,
        1 <= o.quantity,
        1 <= o.price,
        crate::book::side_count(m.buys, o.id) + crate::book::side_count(m.sells, o.id) == 0,
        crate::book::side_volume(m.buys) + crate::book::side_volume(m.sells) + o.quantity
            <= crate::book::MAX_BOOK_VOLUME,
    ensures
        ({
            let opp = if o.side == OrderSide::Buy {
                m.sells
            } else {
                m.buys
            };
            let sm = spec_submit(m, eid, oid, o, now);
            &&& (spec_available(opp, o) >= o.quantity ==> {
                &&& sm.error is None
                &&& !sm.fok_rejected
                &&& sm.taker.filled_quantity == o.quantity
                &&& sm.taker.status == OrderStatus::Filled
            })
            &&& (spec_available(opp, o) < o.quantity ==> {
                &&& sm.fok_rejected
                &&& sm.fills.len() == 0
                &&& sm.buys == m.buys
                &&& sm.sells == m.sells
                &&& sm.taker.status == OrderStatus::Rejected
            })
        }),
{
    let opp = if o.side == OrderSide::Buy {
        m.sells
    } else {
        m.buys
    };
    if spec_available(opp, o) >= o.quantity {
        lemma_available_implies_filled(opp, o, now);
        lemma_match_props(opp, o, now);
    }
}

/// Every trade a submission produces references its two orders faithfully:
/// the buyer and seller are the orders' owners, the order identifiers are
/// theirs, the price is one of the two orders' prices (the resting one's),
/// and the quantity is positive and within both orders' sizes. The
/// price-improvement rule is part of it: a limit buyer never pays over its
/// limit, a limit seller never receives under it.
pub proof fn lemma_trades_reference_orders(m: BookModel, eid: i32, oid: i32, o: Order, now: i64)
    requires
        crate::book::side_wf(m.buys, OrderSide::Buy, eid, oid),
        crate::book::side_wf(m.sells, OrderSide::Sell, eid, oid),
        crate::order::order_wf(o),
        o.event_id == eid,
        o.option_id == oid,
    ensures
        ({
            let sm = spec_submit(m, eid, oid, o, now);
            forall|i: int|
                0 <= i < sm.fills.len() ==> {
                    let t = fill_trade(#[trigger] sm.fills[i], o, now);
                    let buy_side = if o.side == OrderSide::Buy {
                        o
                    } else {
                        sm.fills[i].maker
                    };
                    let sell_side = if o.side == OrderSide::Buy {
                        sm.fills[i].maker
                    } else {
                        o
                    };
                    &&& buy_side.side == OrderSide::Buy
                    &&& sell_side.side == OrderSide::Sell
                    &&& t.buyer_id == buy_side.user_id
                    &&& t.seller_id == sell_side.user_id
                    &&& t.buy_order_id == buy_side.id
                    &&& t.sell_order_id == sell_side.id
                    &&& (t.price == buy_side.price || t.price == sell_side.price)
                    &&& 1 <= t.quantity
                    &&& t.quantity <= buy_side.quantity
                    &&& t.quantity <= sell_side.quantity
                    &&& t.total_amount == t.price * t.quantity
                    &&& t.event_id == eid
                    &&& t.option_id == oid
                    &&& (o.order_type == OrderType::Limit && o.side == OrderSide::Buy
                        ==> t.price <= o.price)
                    &&& (o.order_type == OrderType::Limit && o.side == OrderSide::Sell
                        ==> t.price >= o.price)
                }
        }),
{
    let sm = spec_submit(m, eid, oid, o, now);
    let opp = if o.side == OrderSide::Buy {
        m.sells
    } else {
        m.buys
    };
    lemma_match_props(opp, o, now);
    let mm = spec_match(opp, o, now);
    assert forall|i: int| 0 <= i < sm.fills.len() implies {
        let t = fill_trade(#[trigger] sm.fills[i], o, now);
        let buy_side = if o.side == OrderSide::Buy {
            o
        } else {
            sm.fills[i].maker
        };
        let sell_side = if o.side == OrderSide::Buy {
            sm.fills[i].maker
        } else {
            o
        };
        &&& buy_side.side == OrderSide::Buy
        &&& sell_side.side == OrderSide::Sell
        &&& t.buyer_id == buy_side.user_id
        &&& t.seller_id == sell_side.user_id
        &&& t.buy_order_id == buy_side.id
        &&& t.sell_order_id == sell_side.id
        &&& (t.price == buy_side.price || t.price == sell_side.price)
        &&& 1 <= t.quantity
        &&& t.quantity <= buy_side.quantity
        &&& t.quantity <= sell_side.quantity
        &&& t.total_amount == t.price * t.quantity
        &&& t.event_id == eid
        &&& t.option_id == oid
        &&& (o.order_type == OrderType::Limit && o.side == OrderSide::Buy ==> t.price <= o.price)
        &&& (o.order_type == OrderType::Limit && o.side == OrderSide::Sell ==> t.price >= o.price)
    } by {
        assert(sm.fills == mm.fills);
        assert(fill_ok(mm.fills[i], o));
        let f = sm.fills[i];
        assert((f.price as int) * (f.quantity as int) <= u128::MAX) by (nonlinear_arith)
            requires
                f.price <= u64::MAX,
                f.quantity <= u64::MAX,
        ;
    }
}

impl crate::book::OrderBookEngine {
    /// Record produced trades: remember the last trade price and append the
    /// trades to the bounded recent-trade log.
    fn record_trades(&mut self, tr: &Vec<Trade>)
        ensures
            final(self).buys == old(self).buys,
            final(self).sells == old(self).sells,
            final(self).event_id == old(self).event_id,
            final(self).option_id == old(self).option_id,
            final(self).last_trade_price == (if tr@.len() > 0 {
                Some(tr@.last().price)
            } else {
                old(self).last_trade_price
            }),
            final(self).trades@ == spec_trade_log(old(self).trades@ + tr@),
    {
        if tr.len() > 0 {
            self.last_trade_price = Some(tr[tr.len() - 1].price);
        }
        push_all(&mut self.trades, tr, 0);
        proof {
            assert(tr@.skip(0) =~= tr@);
        }
        trim_log(&mut self.trades);
    }

    /// Submit a fresh order (nothing filled, status pending) to the book
    /// at time `now`. On success the produced trades come back (their
    /// identifiers freshly drawn, everything else exactly as `spec_submit`
    /// says) and `order` holds the order's final state; on rejection the
    /// book is untouched and the error says why.
    pub fn submit_order(&mut self, order: &mut Order, now: i64) -> (r: Result<
        Vec<Trade>,
        OrderBookError,
    >)
        requires
            old(self).wf(),
            old(order).filled_quantity == 0,
            old(order).status == OrderStatus::Pending,
        ensures
            final(self).wf(),
            final(self).event_id == old(self).event_id,
            final(self).option_id == old(self).option_id,
            ({
                let sm = spec_submit(
                    old(self).model(),
                    old(self).event_id,
                    old(self).option_id,
                    *old(order),
                    now,
                );
                &&& final(self).model() == (BookModel {
                    buys: sm.buys,
                    sells: sm.sells,
                    last_trade_price: sm.last_trade_price,
                })
                &&& *final(order) == sm.taker
                &&& match r {
                    Ok(tr) => {
                        &&& sm.error is None
                        &&& tr@.len() == sm.fills.len()
                        &&& (forall|i: int|
                            0 <= i < sm.fills.len() ==> crate::order::trade_core(
                                #[trigger] tr@[i],
                            ) == fill_trade(sm.fills[i], *old(order), now))
                        &&& final(self).trades@ == spec_trade_log(old(self).trades@ + tr@)
                    },
                    Err(e) => {
                        &&& sm.error == Some(e)
                        &&& final(self).trades@ == old(self).trades@
                    },
                }
            }),
    {
        let ghost m0 = self.model();
        let ghost o0 = *order;
        if order.event_id != self.event_id || order.option_id != self.option_id {
            return Err(OrderBookError::BookMismatch);
        }
        if order.quantity == 0 {
            return Err(OrderBookError::InvalidQuantity);
        }
        if order.price == 0 {
            return Err(OrderBookError::InvalidPrice);
        }
        if self.contains_order_id(order.id) {
            return Err(OrderBookError::DuplicateOrderId);
        }
        proof {
            crate::book::lemma_side_count_nonneg(m0.buys, o0.id);
            crate::book::lemma_side_count_nonneg(m0.sells, o0.id);
        }
        let vol = self.book_volume();
        if (order.quantity as u128) > crate::book::MAX_BOOK_VOLUME - vol {
            return Err(OrderBookError::CapacityExceeded);
        }
        proof {
            crate::book::lemma_side_volume_nonneg(m0.buys, OrderSide::Buy, self.event_id,
                self.option_id);
            crate::book::lemma_side_volume_nonneg(m0.sells, OrderSide::Sell, self.event_id,
                self.option_id);
            assert(side_model(self.buys@).skip(0) =~= side_model(self.buys@));
            assert(side_model(self.sells@).skip(0) =~= side_model(self.sells@));
        }
        if order.time_in_force == TimeInForce::FOK {
            let avail = match order.side {
                OrderSide::Buy => available_rec(&self.sells, 0, order),
                OrderSide::Sell => available_rec(&self.buys, 0, order),
            };
            if avail < order.quantity as u128 {
                order.reject(now);
                let empty: Vec<Trade> = Vec::new();
                proof {
                    assert(self.trades@ + empty@ =~= self.trades@);
                }
                return Ok(empty);
            }
        }
        let ghost opp0 = if o0.side == OrderSide::Buy {
            m0.sells
        } else {
            m0.buys
        };
        let ghost own0 = if o0.side == OrderSide::Buy {
            m0.buys
        } else {
            m0.sells
        };
        let mut tr: Vec<Trade> = Vec::new();
        match order.side {
            OrderSide::Buy => match_rec(&mut self.sells, order, &mut tr, now),
            OrderSide::Sell => match_rec(&mut self.buys, order, &mut tr, now),
        }
        proof {
            lemma_match_props(opp0, o0, now);
        }
        let ghost mm = spec_match(opp0, o0, now);
        proof {
            assert forall|i: int| 0 <= i < mm.fills.len() implies crate::order::trade_core(
                #[trigger] tr@[i],
            ) == fill_trade(mm.fills[i], o0, now) by {
                assert(crate::order::trade_core(tr@[0 + i]) == fill_trade(mm.fills[i], o0, now));
            }
        }
        if order.order_type == OrderType::Market {
            if tr.len() == 0 {
                return Err(OrderBookError::NoLiquidity);
            }
            proof {
                lemma_trades_match_fills(tr@, mm.fills, o0, now);
                lemma_trades_sums_nonneg(tr@);
                assert(tr@.skip(0) =~= tr@);
                assert(fills_cost(mm.fills) <= u64::MAX * fills_qty(mm.fills));
                assert(fills_qty(mm.fills) <= o0.quantity);
                assert(u64::MAX * fills_qty(mm.fills) <= u64::MAX * (o0.quantity as int))
                    by (nonlinear_arith)
                    requires
                        fills_qty(mm.fills) <= o0.quantity,
                        fills_qty(mm.fills) >= 0,
                ;
                assert(u64::MAX * (o0.quantity as int) < u128::MAX) by (nonlinear_arith)
                    requires
                        o0.quantity <= u64::MAX,
                ;
            }
            let (cost, qty) = trades_sums_rec(&tr, 0);
            proof {
                assert(qty >= 1);
                assert((cost as int) / (qty as int) <= u64::MAX) by (nonlinear_arith)
                    requires
                        cost <= u64::MAX * (qty as int),
                        qty >= 1,
                ;
            }
            let vwap = cost / qty;
            order.price = vwap as u64;
            proof {
                lemma_submit_book_wf(m0, self.event_id, self.option_id, o0, now);
                assert(crate::order::trade_core(tr@[tr@.len() - 1]) == fill_trade(
                    mm.fills[tr@.len() - 1],
                    o0,
                    now,
                ));
                assert(mm.fills.last() == mm.fills[tr@.len() - 1]);
            }
            self.record_trades(&tr);
            return Ok(tr);
        }
        // Limit order: act on the unfilled remainder per time in force.
        if order.time_in_force == TimeInForce::GTC {
            if order.filled_quantity < order.quantity {
                proof {
                    assert(crate::book::resting_ok(mm.taker, mm.taker.price, o0.side, o0.event_id,
                        o0.option_id));
                }
                match order.side {
                    OrderSide::Buy => crate::book::insert_rec(&mut self.buys, *order),
                    OrderSide::Sell => crate::book::insert_rec(&mut self.sells, *order),
                }
                proof {
                    crate::book::lemma_insert_props(own0, mm.taker, o0.event_id, o0.option_id);
                }
            }
        } else if order.time_in_force == TimeInForce::IOC {
            if order.filled_quantity < order.quantity {
                order.cancel(now);
            }
        } else {
            proof {
                lemma_available_implies_filled(opp0, o0, now);
            }
        }
        proof {
            lemma_submit_book_wf(m0, self.event_id, self.option_id, o0, now);
            if tr@.len() > 0 {
                assert(crate::order::trade_core(tr@[tr@.len() - 1]) == fill_trade(
                    mm.fills[tr@.len() - 1],
                    o0,
                    now,
                ));
                assert(mm.fills.last() == mm.fills[tr@.len() - 1]);
            }
        }
        self.record_trades(&tr);
        Ok(tr)
    }
}

} // verus!
