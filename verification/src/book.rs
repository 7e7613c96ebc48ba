//! The order book for one (event, option) pair: price levels on each side,
//! each holding a first-in-first-out queue of resting orders.

use vstd::prelude::*;

use crate::order::{Order, OrderSide, OrderStatus, OrderType, Trade};

verus! {

/// Largest total share volume a book may hold; keeps every sum the engine
/// forms far inside machine range.
pub const MAX_BOOK_VOLUME: u128 = 1_000_000_000_000;

/// How many recent trades the book keeps for volume-weighted price queries.
pub const TRADE_LOG_CAP: usize = 1000;

/// One price level: all resting orders at `price`, earliest first.
pub struct PriceLevelQueue {
    pub price: u64,
    pub orders: Vec<Order>,
}

/// Mathematical image of a price level.
pub struct LevelModel {
    pub price: u64,
    pub orders: Seq<Order>,
}

/// Mathematical image of a whole book.
pub struct BookModel {
    pub buys: Seq<LevelModel>,
    pub sells: Seq<LevelModel>,
    pub last_trade_price: Option<u64>,
}

impl View for PriceLevelQueue {
    type V = LevelModel;

    open spec fn view(&self) -> LevelModel {
        LevelModel { price: self.price, orders: self.orders@ }
    }
}

/// The image of one side of the book.
pub open spec fn side_model(levels: Seq<PriceLevelQueue>) -> Seq<LevelModel> {
    levels.map_values(|l: PriceLevelQueue| l@)
}

/// `a` is a better price than `b` for the given side: higher for bids,
/// lower for asks.
pub open spec fn price_better(side: OrderSide, a: u64, b: u64) -> bool {
    match side {
        OrderSide::Buy => a > b,
        OrderSide::Sell => a < b,
    }
}

/// The side an order rests on is the side it was placed with.
pub open spec fn opposite(side: OrderSide) -> OrderSide {
    match side {
        OrderSide::Buy => OrderSide::Sell,
        OrderSide::Sell => OrderSide::Buy,
    }
}

/// What must hold of an order resting at a level of the book: it matches the
/// level's price and the book's side and identifiers, it is a limit order
/// with shares still to fill, and its status reflects that.
pub open spec fn resting_ok(o: Order, price: u64, side: OrderSide, eid: i32, oid: i32) -> bool {
    &&& crate::order::order_wf(o)
    &&& o.price == price
    &&& o.side == side
    &&& o.event_id == eid
    &&& o.option_id == oid
    &&& o.order_type == OrderType::Limit
    &&& o.filled_quantity < o.quantity
    &&& (o.status == OrderStatus::Pending || o.status == OrderStatus::PartiallyFilled)
}

/// A well-formed level: non-empty, positive price, every order resting
/// correctly at it.
pub open spec fn level_wf(l: LevelModel, side: OrderSide, eid: i32, oid: i32) -> bool {
    &&& l.orders.len() >= 1
    &&& l.price >= 1
    &&& forall|k: int|
        0 <= k < l.orders.len() ==> resting_ok(#[trigger] l.orders[k], l.price, side, eid, oid)
}

/// A well-formed side: well-formed levels, sorted best price first with no
/// duplicate prices.
pub open spec fn side_wf(levels: Seq<LevelModel>, side: OrderSide, eid: i32, oid: i32) -> bool {
    &&& forall|i: int| 0 <= i < levels.len() ==> level_wf(#[trigger] levels[i], side, eid, oid)
    &&& forall|i: int, j: int|
        0 <= i < j < levels.len() ==> price_better(
            side,
            #[trigger] levels[i].price,
            #[trigger] levels[j].price,
        )
}

/// The book is not crossed: the best bid is strictly under the best ask.
pub open spec fn no_cross(buys: Seq<LevelModel>, sells: Seq<LevelModel>) -> bool {
    buys.len() > 0 && sells.len() > 0 ==> buys[0].price < sells[0].price
}

/// How many orders in a queue carry the given identifier.
pub open spec fn queue_count(orders: Seq<Order>, id: u128) -> int
    decreases orders.len(),
{
    if orders.len() == 0 {
        0
    } else {
        (if orders[0].id == id {
            1int
        } else {
            0int
        }) + queue_count(orders.drop_first(), id)
    }
}

/// How many orders on a side carry the given identifier.
pub open spec fn side_count(levels: Seq<LevelModel>, id: u128) -> int
    decreases levels.len(),
{
    if levels.len() == 0 {
        0
    } else {
        queue_count(levels[0].orders, id) + side_count(levels.drop_first(), id)
    }
}

/// Total unfilled shares in a queue.
pub open spec fn queue_volume(orders: Seq<Order>) -> int
    decreases orders.len(),
{
    if orders.len() == 0 {
        0
    } else {
        crate::order::spec_remaining(orders[0]) + queue_volume(orders.drop_first())
    }
}

/// Total unfilled shares on a side.
pub open spec fn side_volume(levels: Seq<LevelModel>) -> int
    decreases levels.len(),
{
    if levels.len() == 0 {
        0
    } else {
        queue_volume(levels[0].orders) + side_volume(levels.drop_first())
    }
}

/// Why the engine refused or could not serve a request.
#[derive(Clone, Copy, PartialEq, Eq, Structural, Debug)]
pub enum OrderBookError {
    /// The order names a different event or option than this book.
    BookMismatch,
    /// The order quantity is zero.
    InvalidQuantity,
    /// The order price is zero.
    InvalidPrice,
    /// An order with this identifier already rests in the book.
    DuplicateOrderId,
    /// Accepting the order could push the book past `MAX_BOOK_VOLUME`.
    CapacityExceeded,
    /// A market order found no resting orders to trade against.
    NoLiquidity,
    /// No resting order carries the identifier to cancel.
    OrderNotFound,
}

/// Identifier counts are never negative.
pub proof fn lemma_queue_count_nonneg(orders: Seq<Order>, id: u128)
    ensures
        queue_count(orders, id) >= 0,
    decreases orders.len(),
{
    if orders.len() > 0 {
        lemma_queue_count_nonneg(orders.drop_first(), id);
    }
}

/// Identifier counts on a side are never negative.
pub proof fn lemma_side_count_nonneg(levels: Seq<LevelModel>, id: u128)
    ensures
        side_count(levels, id) >= 0,
    decreases levels.len(),
{
    if levels.len() > 0 {
        lemma_queue_count_nonneg(levels[0].orders, id);
        lemma_side_count_nonneg(levels.drop_first(), id);
    }
}

/// A queue whose orders all keep `filled <= quantity` has non-negative volume.
pub proof fn lemma_queue_volume_nonneg(orders: Seq<Order>)
    requires
        forall|k: int| 0 <= k < orders.len() ==> (#[trigger] orders[k]).filled_quantity
            <= orders[k].quantity,
    ensures
        queue_volume(orders) >= 0,
    decreases orders.len(),
{
    if orders.len() > 0 {
        assert(forall|k: int|
            0 <= k < orders.drop_first().len() ==> orders.drop_first()[k] == orders[k + 1]);
        lemma_queue_volume_nonneg(orders.drop_first());
    }
}

/// A side whose orders all keep `filled <= quantity` has non-negative volume.
pub proof fn lemma_side_volume_nonneg(levels: Seq<LevelModel>, side: OrderSide, eid: i32, oid: i32)
    requires
        forall|i: int| 0 <= i < levels.len() ==> level_wf(#[trigger] levels[i], side, eid, oid),
    ensures
        side_volume(levels) >= 0,
    decreases levels.len(),
{
    if levels.len() > 0 {
        lemma_queue_volume_nonneg(levels[0].orders);
        assert(forall|i: int| 0 <= i < levels.drop_first().len() ==> levels.drop_first()[i]
            == levels[i + 1]);
        lemma_side_volume_nonneg(levels.drop_first(), side, eid, oid);
    }
}

/// Placing an order into its side: a new level opens at the right place in
/// the price order, or the order joins the back of the queue at its price.
pub open spec fn spec_insert(levels: Seq<LevelModel>, o: Order) -> Seq<LevelModel>
    decreases levels.len(),
{
    if levels.len() == 0 {
        seq![LevelModel { price: o.price, orders: seq![o] }]
    } else if price_better(o.side, o.price, levels[0].price) {
        seq![LevelModel { price: o.price, orders: seq![o] }] + levels
    } else if o.price == levels[0].price {
        levels.update(0, LevelModel { price: levels[0].price, orders: levels[0].orders.push(o) })
    } else {
        seq![levels[0]] + spec_insert(levels.drop_first(), o)
    }
}

/// Insertion preserves the side invariant, adds exactly the order's
/// remaining volume and one occurrence of its identifier, and the best
/// price afterwards is the better of the old best and the order's price.
pub proof fn lemma_insert_props(levels: Seq<LevelModel>, o: Order, eid: i32, oid: i32)
    requires
        side_wf(levels, o.side, eid, oid),
        resting_ok(o, o.price, o.side, eid, oid),
    ensures
        ({
            let r = spec_insert(levels, o);
            &&& side_wf(r, o.side, eid, oid)
            &&& r.len() >= 1
            &&& side_volume(r) == side_volume(levels) + crate::order::spec_remaining(o)
            &&& forall|id: u128| #[trigger]
                side_count(r, id) == side_count(levels, id) + (if o.id == id {
                    1int
                } else {
                    0int
                })
            &&& r[0].price == (if levels.len() == 0 || price_better(o.side, o.price, levels[0].price) {
                o.price
            } else {
                levels[0].price
            })
        }),
    decreases levels.len(),
{
    let r = spec_insert(levels, o);
    lemma_singleton_level(o);
    if levels.len() == 0 {
        assert(r =~= seq![LevelModel { price: o.price, orders: seq![o] }]);
        assert(side_volume(levels) == 0);
        assert(forall|id: u128| side_count(levels, id) == 0);
    } else if price_better(o.side, o.price, levels[0].price) {
        assert(r.drop_first() =~= levels);
        assert(r[0] == (LevelModel { price: o.price, orders: seq![o] }));
        assert forall|id: u128| #[trigger]
            side_count(r, id) == side_count(levels, id) + (if o.id == id {
                1int
            } else {
                0int
            }) by {
            assert(side_count(r, id) == queue_count(seq![o], id) + side_count(r.drop_first(), id));
        }
        assert forall|i: int, j: int| 0 <= i < j < r.len() implies price_better(
            o.side,
            #[trigger] r[i].price,
            #[trigger] r[j].price,
        ) by {
            if i > 0 {
                assert(r[i] == levels[i - 1]);
                assert(r[j] == levels[j - 1]);
            } else {
                assert(r[j] == levels[j - 1]);
                if j > 1 {
                    assert(price_better(o.side, levels[0].price, levels[j - 1].price));
                }
            }
        }
    } else if o.price == levels[0].price {
        let lvl1 = LevelModel { price: levels[0].price, orders: levels[0].orders.push(o) };
        assert(r.drop_first() =~= levels.drop_first());
        assert(lvl1.orders.drop_last() =~= levels[0].orders);
        lemma_queue_push(levels[0].orders, o);
        assert forall|id: u128| #[trigger]
            side_count(r, id) == side_count(levels, id) + (if o.id == id {
                1int
            } else {
                0int
            }) by {
            assert(side_count(r, id) == queue_count(lvl1.orders, id) + side_count(
                r.drop_first(),
                id,
            ));
            assert(side_count(levels, id) == queue_count(levels[0].orders, id) + side_count(
                levels.drop_first(),
                id,
            ));
        }
        assert forall|k: int| 0 <= k < lvl1.orders.len() implies resting_ok(
            #[trigger] lvl1.orders[k],
            lvl1.price,
            o.side,
            eid,
            oid,
        ) by {
            if k < levels[0].orders.len() {
                assert(lvl1.orders[k] == levels[0].orders[k]);
            } else {
                assert(lvl1.orders[k] == o);
            }
        }
    } else {
        let tail = spec_insert(levels.drop_first(), o);
        assert(forall|i: int| 0 <= i < levels.drop_first().len() ==> levels.drop_first()[i]
            == levels[i + 1]);
        lemma_insert_props(levels.drop_first(), o, eid, oid);
        assert(r.drop_first() =~= tail);
        assert(r[0] == levels[0]);
        assert forall|id: u128| #[trigger]
            side_count(r, id) == side_count(levels, id) + (if o.id == id {
                1int
            } else {
                0int
            }) by {
            assert(side_count(r, id) == queue_count(levels[0].orders, id) + side_count(
                r.drop_first(),
                id,
            ));
            assert(side_count(levels, id) == queue_count(levels[0].orders, id) + side_count(
                levels.drop_first(),
                id,
            ));
            assert(side_count(tail, id) == side_count(levels.drop_first(), id) + (if o.id == id {
                1int
            } else {
                0int
            }));
        }
        assert forall|i: int, j: int| 0 <= i < j < r.len() implies price_better(
            o.side,
            #[trigger] r[i].price,
            #[trigger] r[j].price,
        ) by {
            if i > 0 {
                assert(r[i] == tail[i - 1]);
                assert(r[j] == tail[j - 1]);
            } else {
                assert(r[j] == tail[j - 1]);
                // The head is better than both the old second level and the order.
                if levels.drop_first().len() == 0 || price_better(
                    o.side,
                    o.price,
                    levels.drop_first()[0].price,
                ) {
                    assert(tail[0].price == o.price);
                } else {
                    assert(tail[0].price == levels[1].price);
                }
                if j == 1 {
                    assert(price_better(o.side, levels[0].price, tail[0].price));
                } else {
                    assert(price_better(o.side, tail[0].price, tail[j - 1].price) || tail[0].price
                        == tail[j - 1].price || price_better(o.side, tail[j - 1].price, tail[0].price));
                    assert(price_better(o.side, levels[0].price, tail[0].price));
                    assert(price_better(o.side, tail[0].price, tail[j - 1].price));
                }
            }
        }
    }
}

/// Pushing an order onto a queue adds its remaining volume and identifier.
pub proof fn lemma_queue_push(orders: Seq<Order>, o: Order)
    ensures
        queue_volume(orders.push(o)) == queue_volume(orders) + crate::order::spec_remaining(o),
        forall|id: u128| #[trigger]
            queue_count(orders.push(o), id) == queue_count(orders, id) + (if o.id == id {
                1int
            } else {
                0int
            }),
    decreases orders.len(),
{
    if orders.len() == 0 {
        assert(orders.push(o)[0] == o);
        assert(orders.push(o).drop_first() =~= Seq::<Order>::empty());
        assert(queue_volume(Seq::<Order>::empty()) == 0);
        assert forall|id: u128| #[trigger]
            queue_count(orders.push(o), id) == queue_count(orders, id) + (if o.id == id {
                1int
            } else {
                0int
            }) by {
            assert(queue_count(Seq::<Order>::empty(), id) == 0);
            assert(queue_count(orders, id) == 0);
        }
    } else {
        assert(orders.push(o)[0] == orders[0]);
        assert(orders.push(o).drop_first() =~= orders.drop_first().push(o));
        lemma_queue_push(orders.drop_first(), o);
        assert forall|id: u128| #[trigger]
            queue_count(orders.push(o), id) == queue_count(orders, id) + (if o.id == id {
                1int
            } else {
                0int
            }) by {
            assert(queue_count(orders.push(o), id) == (if orders[0].id == id {
                1int
            } else {
                0int
            }) + queue_count(orders.drop_first().push(o), id));
            assert(queue_count(orders, id) == (if orders[0].id == id {
                1int
            } else {
                0int
            }) + queue_count(orders.drop_first(), id));
        }
    }
}

/// Volume and identifier counts of a one-order, one-level side.
pub proof fn lemma_singleton_level(o: Order)
    ensures
        queue_volume(seq![o]) == crate::order::spec_remaining(o),
        forall|id: u128| #[trigger] queue_count(seq![o], id) == (if o.id == id {
            1int
        } else {
            0int
        }),
        side_volume(seq![LevelModel { price: o.price, orders: seq![o] }])
            == crate::order::spec_remaining(o),
        forall|id: u128| #[trigger]
            side_count(seq![LevelModel { price: o.price, orders: seq![o] }], id) == (if o.id
                == id {
                1int
            } else {
                0int
            }),
{
    let q = seq![o];
    let s = seq![LevelModel { price: o.price, orders: q }];
    assert(q.drop_first() =~= Seq::<Order>::empty());
    assert(queue_volume(Seq::<Order>::empty()) == 0);
    assert(s.drop_first() =~= Seq::<LevelModel>::empty());
    assert(side_volume(Seq::<LevelModel>::empty()) == 0);
    assert forall|id: u128| #[trigger] queue_count(q, id) == (if o.id == id {
        1int
    } else {
        0int
    }) by {
        assert(queue_count(Seq::<Order>::empty(), id) == 0);
    }
    assert forall|id: u128| #[trigger] side_count(s, id) == (if o.id == id {
        1int
    } else {
        0int
    }) by {
        assert(queue_count(Seq::<Order>::empty(), id) == 0);
        assert(side_count(Seq::<LevelModel>::empty(), id) == 0);
        assert(side_count(s, id) == queue_count(q, id) + side_count(s.drop_first(), id));
    }
}

/// Executable insertion of a resting order into its side.
pub(crate) fn insert_rec(levels: &mut Vec<PriceLevelQueue>, o: Order)
    ensures
        side_model(final(levels)@) == spec_insert(side_model(old(levels)@), o),
    decreases levels@.len(),
{
    let ghost levels0 = side_model(levels@);
    if levels.len() == 0 {
        let lvl = PriceLevelQueue { price: o.price, orders: vec![o] };
        proof {
            assert(lvl@.orders =~= seq![o]);
        }
        levels.push(lvl);
        proof {
            assert(side_model(levels@) =~~= spec_insert(levels0, o));
        }
        return ;
    }
    let head_price = levels[0].price;
    let better = match o.side {
        OrderSide::Buy => o.price > head_price,
        OrderSide::Sell => o.price < head_price,
    };
    if better {
        let lvl = PriceLevelQueue { price: o.price, orders: vec![o] };
        proof {
            assert(lvl@.orders =~= seq![o]);
        }
        levels.insert(0, lvl);
        proof {
            assert(side_model(levels@) =~~= spec_insert(levels0, o));
        }
    } else if o.price == head_price {
        let mut lvl = levels.remove(0);
        lvl.orders.push(o);
        levels.insert(0, lvl);
        proof {
            assert(side_model(levels@) =~~= spec_insert(levels0, o));
        }
    } else {
        let head = levels.remove(0);
        proof {
            assert(side_model(levels@) =~= levels0.drop_first());
        }
        insert_rec(levels, o);
        levels.insert(0, head);
        proof {
            assert(side_model(levels@) =~~= spec_insert(levels0, o));
        }
    }
}

/// Removing an order by identifier from one queue: the first occurrence
/// leaves, everything else keeps its place.
pub open spec fn spec_queue_cancel(orders: Seq<Order>, id: u128) -> (Seq<Order>, Option<Order>)
    decreases orders.len(),
{
    if orders.len() == 0 {
        (orders, None)
    } else if orders[0].id == id {
        (orders.drop_first(), Some(orders[0]))
    } else {
        let r = spec_queue_cancel(orders.drop_first(), id);
        (seq![orders[0]] + r.0, r.1)
    }
}

/// Removing an order by identifier from one side: the level it sat at
/// shrinks, and disappears when emptied.
pub open spec fn spec_side_cancel(levels: Seq<LevelModel>, id: u128) -> (Seq<LevelModel>, Option<
    Order,
>)
    decreases levels.len(),
{
    if levels.len() == 0 {
        (levels, None)
    } else {
        let qc = spec_queue_cancel(levels[0].orders, id);
        if qc.1 is Some {
            if qc.0.len() == 0 {
                (levels.drop_first(), qc.1)
            } else {
                (
                    seq![LevelModel { price: levels[0].price, orders: qc.0 }]
                        + levels.drop_first(),
                    qc.1,
                )
            }
        } else {
            let r = spec_side_cancel(levels.drop_first(), id);
            (seq![levels[0]] + r.0, r.1)
        }
    }
}

/// What cancelling by identifier does to one queue: nothing when the
/// identifier is absent; otherwise exactly its first occurrence leaves.
pub proof fn lemma_queue_cancel_props(orders: Seq<Order>, id: u128)
    ensures
        ({
            let qc = spec_queue_cancel(orders, id);
            &&& (qc.1 is None ==> qc.0 == orders && queue_count(orders, id) == 0)
            &&& (qc.1 is Some ==> {
                let o = qc.1->0;
                &&& o.id == id
                &&& orders.contains(o)
                &&& qc.0.len() == orders.len() - 1
                &&& queue_volume(qc.0) == queue_volume(orders) - crate::order::spec_remaining(o)
                &&& forall|x: u128| #[trigger]
                    queue_count(qc.0, x) == queue_count(orders, x) - (if x == id {
                        1int
                    } else {
                        0int
                    })
                &&& forall|k: int| 0 <= k < qc.0.len() ==> orders.contains(#[trigger] qc.0[k])
            })
        }),
    decreases orders.len(),
{
    let qc = spec_queue_cancel(orders, id);
    if orders.len() == 0 {
    } else if orders[0].id == id {
        assert(orders.contains(orders[0]));
        assert forall|x: u128| #[trigger]
            queue_count(qc.0, x) == queue_count(orders, x) - (if x == id {
                1int
            } else {
                0int
            }) by {
            assert(queue_count(orders, x) == (if orders[0].id == x {
                1int
            } else {
                0int
            }) + queue_count(orders.drop_first(), x));
        }
        assert(forall|k: int|
            0 <= k < qc.0.len() ==> orders.contains(#[trigger] qc.0[k]));
    } else {
        lemma_queue_cancel_props(orders.drop_first(), id);
        let r = spec_queue_cancel(orders.drop_first(), id);
        if r.1 is None {
            assert(qc.0 =~= orders);
            assert(queue_count(orders, id) == 0);
        } else {
            let o = r.1->0;
            assert(orders.drop_first().contains(o));
            assert(orders.contains(o)) by {
                let k = choose|k: int| 0 <= k < orders.drop_first().len() && orders.drop_first()[k]
                    == o;
                assert(orders[k + 1] == o);
            }
            assert(qc.0.drop_first() =~= r.0);
            assert(qc.0[0] == orders[0]);
            assert(queue_volume(qc.0) == crate::order::spec_remaining(orders[0]) + queue_volume(
                r.0,
            ));
            assert forall|x: u128| #[trigger]
                queue_count(qc.0, x) == queue_count(orders, x) - (if x == id {
                    1int
                } else {
                    0int
                }) by {
                assert(queue_count(qc.0, x) == (if orders[0].id == x {
                    1int
                } else {
                    0int
                }) + queue_count(r.0, x));
            }
            assert forall|k: int| 0 <= k < qc.0.len() implies orders.contains(
                #[trigger] qc.0[k],
            ) by {
                if k == 0 {
                    assert(orders.contains(orders[0]));
                } else {
                    assert(qc.0[k] == r.0[k - 1]);
                    assert(orders.drop_first().contains(r.0[k - 1]));
                    let j = choose|j: int|
                        0 <= j < orders.drop_first().len() && orders.drop_first()[j] == r.0[k - 1];
                    assert(orders[j + 1] == r.0[k - 1]);
                }
            }
        }
    }
}

/// What cancelling by identifier does to one side: the invariant holds
/// afterwards, exactly one occurrence leaves when found, the volume drops by
/// the cancelled order's remainder, and the best price does not improve.
pub proof fn lemma_side_cancel_props(
    levels: Seq<LevelModel>,
    id: u128,
    side: OrderSide,
    eid: i32,
    oid: i32,
)
    requires
        side_wf(levels, side, eid, oid),
    ensures
        ({
            let sc = spec_side_cancel(levels, id);
            &&& side_wf(sc.0, side, eid, oid)
            &&& sc.0.len() <= levels.len()
            &&& (sc.1 is None ==> sc.0 == levels && side_count(levels, id) == 0)
            &&& (sc.1 is Some ==> {
                let o = sc.1->0;
                &&& o.id == id
                &&& resting_ok(o, o.price, side, eid, oid)
                &&& side_volume(sc.0) == side_volume(levels) - crate::order::spec_remaining(o)
            })
            &&& forall|x: u128| #[trigger]
                side_count(sc.0, x) == side_count(levels, x) - (if sc.1 is Some && x == id {
                    1int
                } else {
                    0int
                })
            &&& (sc.0.len() > 0 && levels.len() > 0 ==> (sc.0[0].price == levels[0].price
                || price_better(side, levels[0].price, sc.0[0].price)))
        }),
    decreases levels.len(),
{
    let sc = spec_side_cancel(levels, id);
    if levels.len() == 0 {
    } else {
        let qc = spec_queue_cancel(levels[0].orders, id);
        lemma_queue_cancel_props(levels[0].orders, id);
        assert(crate::book::level_wf(levels[0], side, eid, oid));
        if qc.1 is Some {
            let o = qc.1->0;
            assert(resting_ok(o, levels[0].price, side, eid, oid)) by {
                let k = choose|k: int|
                    0 <= k < levels[0].orders.len() && levels[0].orders[k] == o;
            }
            if qc.0.len() == 0 {
                assert(sc.0 =~= levels.drop_first());
                assert(forall|i: int| 0 <= i < sc.0.len() ==> sc.0[i] == levels[i + 1]);
                assert(queue_volume(levels[0].orders) == crate::order::spec_remaining(o)) by {
                    assert(queue_volume(qc.0) == 0);
                }
                assert forall|x: u128| #[trigger]
                    side_count(sc.0, x) == side_count(levels, x) - (if x == id {
                        1int
                    } else {
                        0int
                    }) by {
                    assert(queue_count(qc.0, x) == 0);
                    assert(queue_count(levels[0].orders, x) == (if x == id {
                        1int
                    } else {
                        0int
                    }));
                }
            } else {
                let lvl1 = LevelModel { price: levels[0].price, orders: qc.0 };
                assert(sc.0[0] == lvl1);
                assert(sc.0.drop_first() =~= levels.drop_first());
                assert(level_wf(lvl1, side, eid, oid)) by {
                    assert forall|k: int| 0 <= k < lvl1.orders.len() implies resting_ok(
                        #[trigger] lvl1.orders[k],
                        lvl1.price,
                        side,
                        eid,
                        oid,
                    ) by {
                        assert(levels[0].orders.contains(qc.0[k]));
                        let j = choose|j: int|
                            0 <= j < levels[0].orders.len() && levels[0].orders[j] == qc.0[k];
                    }
                }
                assert forall|i: int, j: int| 0 <= i < j < sc.0.len() implies price_better(
                    side,
                    #[trigger] sc.0[i].price,
                    #[trigger] sc.0[j].price,
                ) by {
                    assert(sc.0[j] == levels[j]);
                    if i > 0 {
                        assert(sc.0[i] == levels[i]);
                    }
                }
                assert forall|x: u128| #[trigger]
                    side_count(sc.0, x) == side_count(levels, x) - (if x == id {
                        1int
                    } else {
                        0int
                    }) by {
                    assert(side_count(sc.0, x) == queue_count(qc.0, x) + side_count(
                        sc.0.drop_first(),
                        x,
                    ));
                }
                assert(side_volume(sc.0) == queue_volume(qc.0) + side_volume(sc.0.drop_first()));
            }
        } else {
            let r = spec_side_cancel(levels.drop_first(), id);
            assert(forall|i: int| 0 <= i < levels.drop_first().len() ==> levels.drop_first()[i]
                == levels[i + 1]);
            lemma_side_cancel_props(levels.drop_first(), id, side, eid, oid);
            assert(sc.0[0] == levels[0]);
            assert(sc.0.drop_first() =~= r.0);
            if r.1 is None {
                assert(sc.0 =~= levels);
                assert(side_count(levels, id) == queue_count(levels[0].orders, id) + side_count(
                    levels.drop_first(),
                    id,
                ));
            }
            assert forall|i: int, j: int| 0 <= i < j < sc.0.len() implies price_better(
                side,
                #[trigger] sc.0[i].price,
                #[trigger] sc.0[j].price,
            ) by {
                assert(sc.0[j] == r.0[j - 1]);
                if i > 0 {
                    assert(sc.0[i] == r.0[i - 1]);
                } else {
                    if r.0.len() > 0 && levels.drop_first().len() > 0 {
                        assert(r.0[0].price == levels[1].price || price_better(
                            side,
                            levels[1].price,
                            r.0[0].price,
                        ));
                    }
                    assert(price_better(side, sc.0[0].price, r.0[0].price));
                    if j - 1 > 0 {
                        assert(price_better(side, r.0[0].price, r.0[j - 1].price));
                    }
                }
            }
            assert forall|x: u128| #[trigger]
                side_count(sc.0, x) == side_count(levels, x) - (if sc.1 is Some && x == id {
                    1int
                } else {
                    0int
                }) by {
                assert(side_count(sc.0, x) == queue_count(levels[0].orders, x) + side_count(
                    r.0,
                    x,
                ));
            }
            if sc.1 is Some {
                assert(side_volume(sc.0) == queue_volume(levels[0].orders) + side_volume(r.0));
            }
        }
    }
}

/// Executable removal of an order by identifier from one queue.
pub(crate) fn queue_cancel_rec(orders: &mut Vec<Order>, id: u128) -> (r: Option<Order>)
    ensures
        ({
            let qc = spec_queue_cancel(old(orders)@, id);
            &&& final(orders)@ == qc.0
            &&& r == qc.1
        }),
    decreases old(orders)@.len(),
{
    let ghost orders0 = orders@;
    if orders.len() == 0 {
        return None;
    }
    if orders[0].id == id {
        let o = orders.remove(0);
        proof {
            assert(orders@ =~= orders0.drop_first());
        }
        return Some(o);
    }
    let head = orders.remove(0);
    proof {
        assert(orders@ =~= orders0.drop_first());
    }
    let r = queue_cancel_rec(orders, id);
    orders.insert(0, head);
    proof {
        let qc = spec_queue_cancel(orders0, id);
        assert(orders@ =~= qc.0);
    }
    r
}

/// Executable removal of an order by identifier from one side.
pub(crate) fn side_cancel_rec(levels: &mut Vec<PriceLevelQueue>, id: u128) -> (r: Option<Order>)
    ensures
        ({
            let sc = spec_side_cancel(side_model(old(levels)@), id);
            &&& side_model(final(levels)@) == sc.0
            &&& r == sc.1
        }),
    decreases old(levels)@.len(),
{
    let ghost levels0 = side_model(levels@);
    if levels.len() == 0 {
        return None;
    }
    let mut lvl = levels.remove(0);
    proof {
        assert(side_model(levels@) =~= levels0.drop_first());
    }
    let r = queue_cancel_rec(&mut lvl.orders, id);
    match r {
        Some(o) => {
            if lvl.orders.len() > 0 {
                levels.insert(0, lvl);
            }
            proof {
                let sc = spec_side_cancel(levels0, id);
                assert(side_model(levels@) =~~= sc.0);
            }
            Some(o)
        },
        None => {
            proof {
                lemma_queue_cancel_props(levels0[0].orders, id);
                assert(lvl.orders@ == levels0[0].orders);
            }
            let rr = side_cancel_rec(levels, id);
            levels.insert(0, lvl);
            proof {
                let sc = spec_side_cancel(levels0, id);
                assert(side_model(levels@) =~~= sc.0);
            }
            rr
        },
    }
}

/// Why a persisted book could not be rebuilt.
#[derive(Clone, Copy, PartialEq, Eq, Structural, Debug)]
pub enum RebuildError {
    /// A stored order cannot rest: wrong book, empty, or not an open limit order.
    NotRestable,
    /// Two stored orders carry one identifier.
    DuplicateOrderId,
    /// A stored order's price crosses the other side.
    CrossedBook,
    /// The stored orders exceed `MAX_BOOK_VOLUME` together.
    CapacityExceeded,
}

/// One step of a rebuild: the next stored order joins its side, after the
/// same checks `add_order_directly` demands.
pub open spec fn spec_rebuild_step(
    buys: Seq<LevelModel>,
    sells: Seq<LevelModel>,
    o: Order,
    eid: i32,
    oid: i32,
) -> Result<(Seq<LevelModel>, Seq<LevelModel>), RebuildError> {
    if !resting_ok(o, o.price, o.side, eid, oid) {
        Err(RebuildError::NotRestable)
    } else if side_count(buys, o.id) + side_count(sells, o.id) > 0 {
        Err(RebuildError::DuplicateOrderId)
    } else if side_volume(buys) + side_volume(sells) + crate::order::spec_remaining(o)
        > MAX_BOOK_VOLUME {
        Err(RebuildError::CapacityExceeded)
    } else {
        match o.side {
            OrderSide::Buy => {
                if sells.len() > 0 && o.price >= sells[0].price {
                    Err(RebuildError::CrossedBook)
                } else {
                    Ok((spec_insert(buys, o), sells))
                }
            },
            OrderSide::Sell => {
                if buys.len() > 0 && o.price <= buys[0].price {
                    Err(RebuildError::CrossedBook)
                } else {
                    Ok((buys, spec_insert(sells, o)))
                }
            },
        }
    }
}

/// Rebuilding a book from stored orders, in storage order: each order in
/// turn passes the rebuild checks and joins its side, or the first bad one
/// names the failure.
pub open spec fn spec_rebuild(
    buys: Seq<LevelModel>,
    sells: Seq<LevelModel>,
    orders: Seq<Order>,
    eid: i32,
    oid: i32,
) -> Result<(Seq<LevelModel>, Seq<LevelModel>), RebuildError>
    decreases orders.len(),
{
    if orders.len() == 0 {
        Ok((buys, sells))
    } else {
        match spec_rebuild_step(buys, sells, orders[0], eid, oid) {
            Err(e) => Err(e),
            Ok(next) => spec_rebuild(next.0, next.1, orders.drop_first(), eid, oid),
        }
    }
}

/// Result of a cancel against the whole book.
pub struct CancelModel {
    pub book: BookModel,
    pub cancelled: Option<Order>,
}

/// Cancelling by identifier against the whole book: the bid side is
/// searched first, then the ask side; the removed order comes back marked
/// cancelled with its filled amount kept.
pub open spec fn spec_cancel_book(m: BookModel, id: u128, now: i64) -> CancelModel {
    let b = spec_side_cancel(m.buys, id);
    if b.1 is Some {
        CancelModel {
            book: BookModel { buys: b.0, ..m },
            cancelled: Some(
                Order { status: OrderStatus::Cancelled, updated_at: now, ..b.1->0 },
            ),
        }
    } else {
        let s = spec_side_cancel(m.sells, id);
        if s.1 is Some {
            CancelModel {
                book: BookModel { sells: s.0, ..m },
                cancelled: Some(
                    Order { status: OrderStatus::Cancelled, updated_at: now, ..s.1->0 },
                ),
            }
        } else {
            CancelModel { book: m, cancelled: None }
        }
    }
}

/// Cancelling is idempotent: once an order has been cancelled, a second
/// cancel with the same identifier finds nothing and leaves the book as it
/// was.
pub proof fn lemma_cancel_idempotent(
    m: BookModel,
    id: u128,
    now1: i64,
    now2: i64,
    side_eid: i32,
    side_oid: i32,
)
    requires
        side_wf(m.buys, OrderSide::Buy, side_eid, side_oid),
        side_wf(m.sells, OrderSide::Sell, side_eid, side_oid),
        forall|x: u128| side_count(m.buys, x) + side_count(m.sells, x) <= 1,
    ensures
        ({
            let c1 = spec_cancel_book(m, id, now1);
            c1.cancelled is Some ==> {
                let c2 = spec_cancel_book(c1.book, id, now2);
                &&& c2.cancelled is None
                &&& c2.book == c1.book
            }
        }),
{
    lemma_side_cancel_props(m.buys, id, OrderSide::Buy, side_eid, side_oid);
    lemma_side_cancel_props(m.sells, id, OrderSide::Sell, side_eid, side_oid);
    let b = spec_side_cancel(m.buys, id);
    let s = spec_side_cancel(m.sells, id);
    lemma_side_count_nonneg(m.buys, id);
    lemma_side_count_nonneg(m.sells, id);
    if b.1 is Some {
        let c1 = spec_cancel_book(m, id, now1);
        lemma_side_count_nonneg(b.0, id);
        assert(side_count(c1.book.buys, id) == 0);
        assert(side_count(c1.book.sells, id) == 0);
        lemma_side_cancel_props(c1.book.buys, id, OrderSide::Buy, side_eid, side_oid);
        lemma_side_cancel_props(c1.book.sells, id, OrderSide::Sell, side_eid, side_oid);
        lemma_side_count_nonneg(spec_side_cancel(c1.book.buys, id).0, id);
        lemma_side_count_nonneg(spec_side_cancel(c1.book.sells, id).0, id);
        assert(spec_side_cancel(c1.book.buys, id).1 is None);
        assert(spec_side_cancel(c1.book.sells, id).1 is None);
    } else if s.1 is Some {
        let c1 = spec_cancel_book(m, id, now1);
        lemma_side_count_nonneg(s.0, id);
        assert(side_count(c1.book.buys, id) == 0);
        assert(side_count(c1.book.sells, id) == 0);
        lemma_side_cancel_props(c1.book.buys, id, OrderSide::Buy, side_eid, side_oid);
        lemma_side_cancel_props(c1.book.sells, id, OrderSide::Sell, side_eid, side_oid);
        lemma_side_count_nonneg(spec_side_cancel(c1.book.buys, id).0, id);
        lemma_side_count_nonneg(spec_side_cancel(c1.book.sells, id).0, id);
        assert(spec_side_cancel(c1.book.buys, id).1 is None);
        assert(spec_side_cancel(c1.book.sells, id).1 is None);
    }
}

/// Whether any order from position `i` on in the queue carries the
/// identifier.
pub(crate) fn queue_has_rec(orders: &Vec<Order>, i: usize, id: u128) -> (r: bool)
    requires
        i <= orders@.len(),
    ensures
        r == (queue_count(orders@.skip(i as int), id) > 0),
    decreases orders@.len() - i,
{
    proof {
        lemma_queue_count_nonneg(orders@.skip(i as int), id);
    }
    if i == orders.len() {
        return false;
    }
    proof {
        assert(orders@.skip(i as int)[0] == orders@[i as int]);
        assert(orders@.skip(i as int).drop_first() =~= orders@.skip(i as int + 1));
        lemma_queue_count_nonneg(orders@.skip(i as int + 1), id);
    }
    if orders[i].id == id {
        return true;
    }
    queue_has_rec(orders, i + 1, id)
}

/// Whether any order from level `i` on carries the identifier.
pub(crate) fn side_has_rec(levels: &Vec<PriceLevelQueue>, i: usize, id: u128) -> (r: bool)
    requires
        i <= levels@.len(),
    ensures
        r == (side_count(side_model(levels@).skip(i as int), id) > 0),
    decreases levels@.len() - i,
{
    proof {
        lemma_side_count_nonneg(side_model(levels@).skip(i as int), id);
    }
    if i == levels.len() {
        return false;
    }
    proof {
        assert(side_model(levels@).skip(i as int)[0] == levels@[i as int]@);
        assert(side_model(levels@).skip(i as int).drop_first() =~= side_model(levels@).skip(
            i as int + 1,
        ));
        lemma_side_count_nonneg(side_model(levels@).skip(i as int + 1), id);
        lemma_queue_count_nonneg(levels@[i as int]@.orders, id);
        assert(side_model(levels@).skip(0) =~= side_model(levels@));
    }
    if queue_has_rec(&levels[i].orders, 0, id) {
        proof {
            assert(levels@[i as int]@.orders.skip(0) =~= levels@[i as int]@.orders);
        }
        return true;
    }
    proof {
        assert(levels@[i as int]@.orders.skip(0) =~= levels@[i as int]@.orders);
    }
    side_has_rec(levels, i + 1, id)
}

/// Unfilled shares from position `i` on in the queue.
pub(crate) fn queue_volume_rec(orders: &Vec<Order>, i: usize) -> (r: u128)
    requires
        i <= orders@.len(),
        forall|k: int| 0 <= k < orders@.len() ==> (#[trigger] orders@[k]).filled_quantity
            <= orders@[k].quantity,
        queue_volume(orders@.skip(i as int)) <= MAX_BOOK_VOLUME,
    ensures
        r == queue_volume(orders@.skip(i as int)),
    decreases orders@.len() - i,
{
    if i == orders.len() {
        return 0;
    }
    proof {
        assert(orders@.skip(i as int)[0] == orders@[i as int]);
        assert(orders@.skip(i as int).drop_first() =~= orders@.skip(i as int + 1));
        assert(forall|k: int|
            0 <= k < orders@.skip(i as int + 1).len() ==> #[trigger] orders@.skip(
                i as int + 1,
            )[k] == orders@[k + i + 1]);
        lemma_queue_volume_nonneg(orders@.skip(i as int + 1));
    }
    let head = orders[i].quantity - orders[i].filled_quantity;
    let rest = queue_volume_rec(orders, i + 1);
    (head as u128) + rest
}

/// Unfilled shares from level `i` on.
pub(crate) fn side_volume_rec(
    levels: &Vec<PriceLevelQueue>,
    i: usize,
    Ghost(side): Ghost<OrderSide>,
    Ghost(eid): Ghost<i32>,
    Ghost(oid): Ghost<i32>,
) -> (r: u128)
    requires
        i <= levels@.len(),
        forall|k: int| 0 <= k < levels@.len() ==> level_wf(
            #[trigger] side_model(levels@)[k],
            side,
            eid,
            oid,
        ),
        side_volume(side_model(levels@).skip(i as int)) <= MAX_BOOK_VOLUME,
    ensures
        r == side_volume(side_model(levels@).skip(i as int)),
    decreases levels@.len() - i,
{
    if i == levels.len() {
        return 0;
    }
    proof {
        assert(side_model(levels@).skip(i as int)[0] == levels@[i as int]@);
        assert(side_model(levels@).skip(i as int).drop_first() =~= side_model(levels@).skip(
            i as int + 1,
        ));
        assert(forall|k: int|
            0 <= k < side_model(levels@).skip(i as int + 1).len() ==> #[trigger] side_model(
                levels@,
            ).skip(i as int + 1)[k] == side_model(levels@)[k + i + 1]);
        lemma_side_volume_nonneg_from(side_model(levels@), i as int + 1, side, eid, oid);
        lemma_queue_volume_nonneg(levels@[i as int]@.orders);
        assert(levels@[i as int]@.orders.skip(0) =~= levels@[i as int]@.orders);
    }
    let head = queue_volume_rec(&levels[i].orders, 0);
    let rest = side_volume_rec(levels, i + 1, Ghost(side), Ghost(eid), Ghost(oid));
    head + rest
}

/// All orders on a side, levels in order, each queue front-to-back.
pub open spec fn side_orders(levels: Seq<LevelModel>) -> Seq<Order>
    decreases levels.len(),
{
    if levels.len() == 0 {
        Seq::empty()
    } else {
        levels[0].orders + side_orders(levels.drop_first())
    }
}

/// Append every order in the queue from position `j` on.
pub(crate) fn append_queue_rec(out: &mut Vec<Order>, orders: &Vec<Order>, j: usize)
    requires
        j <= orders@.len(),
    ensures
        final(out)@ == old(out)@ + orders@.skip(j as int),
    decreases orders@.len() - j,
{
    if j == orders.len() {
        proof {
            assert(old(out)@ + orders@.skip(j as int) =~= old(out)@);
        }
        return ;
    }
    let ghost o0 = out@;
    out.push(orders[j]);
    append_queue_rec(out, orders, j + 1);
    proof {
        assert(out@ =~= o0 + orders@.skip(j as int));
    }
}

/// Append every order on the side from level `i` on.
pub(crate) fn collect_side_rec(out: &mut Vec<Order>, levels: &Vec<PriceLevelQueue>, i: usize)
    requires
        i <= levels@.len(),
    ensures
        final(out)@ == old(out)@ + side_orders(side_model(levels@).skip(i as int)),
    decreases levels@.len() - i,
{
    if i == levels.len() {
        proof {
            assert(old(out)@ + side_orders(side_model(levels@).skip(i as int)) =~= old(out)@);
        }
        return ;
    }
    let ghost o0 = out@;
    proof {
        assert(levels@[i as int]@.orders.skip(0) =~= levels@[i as int]@.orders);
    }
    append_queue_rec(out, &levels[i].orders, 0);
    collect_side_rec(out, levels, i + 1);
    proof {
        let tail = side_model(levels@).skip(i as int);
        assert(tail[0] == levels@[i as int]@);
        assert(tail.drop_first() =~= side_model(levels@).skip(i as int + 1));
        assert(out@ =~= o0 + side_orders(tail));
    }
}

/// Add stored orders to a book being rebuilt, from position `i` on.
pub(crate) fn add_orders_rec(
    book: &mut OrderBookEngine,
    orders: &Vec<Order>,
    i: usize,
) -> (r: Result<(), RebuildError>)
    requires
        old(book).wf(),
        i <= orders@.len(),
    ensures
        final(book).wf(),
        final(book).event_id == old(book).event_id,
        final(book).option_id == old(book).option_id,
        final(book).trades@ == old(book).trades@,
        final(book).model().last_trade_price == old(book).model().last_trade_price,
        ({
            let built = spec_rebuild(
                old(book).model().buys,
                old(book).model().sells,
                orders@.skip(i as int),
                old(book).event_id,
                old(book).option_id,
            );
            match r {
                Ok(_) => built == Ok::<(Seq<LevelModel>, Seq<LevelModel>), RebuildError>(
                    (final(book).model().buys, final(book).model().sells),
                ),
                Err(e) => built == Err::<(Seq<LevelModel>, Seq<LevelModel>), RebuildError>(e),
            }
        }),
    decreases orders@.len() - i,
{
    if i == orders.len() {
        return Ok(());
    }
    let ghost m0 = book.model();
    let o = orders[i];
    proof {
        assert(orders@.skip(i as int)[0] == orders@[i as int]);
        assert(orders@.skip(i as int).drop_first() =~= orders@.skip(i as int + 1));
        lemma_side_count_nonneg(m0.buys, o.id);
        lemma_side_count_nonneg(m0.sells, o.id);
        lemma_side_volume_nonneg(m0.buys, OrderSide::Buy, book.event_id, book.option_id);
        lemma_side_volume_nonneg(m0.sells, OrderSide::Sell, book.event_id, book.option_id);
    }
    let restable = o.event_id == book.event_id && o.option_id == book.option_id && o.quantity >= 1
        && o.price >= 1 && o.filled_quantity < o.quantity && o.order_type == OrderType::Limit && (
    o.status == OrderStatus::Pending || o.status == OrderStatus::PartiallyFilled);
    if !restable {
        return Err(RebuildError::NotRestable);
    }
    if book.contains_order_id(o.id) {
        return Err(RebuildError::DuplicateOrderId);
    }
    let vol = book.book_volume();
    let rem = o.quantity - o.filled_quantity;
    if (rem as u128) > MAX_BOOK_VOLUME - vol {
        return Err(RebuildError::CapacityExceeded);
    }
    match o.side {
        OrderSide::Buy => {
            match book.get_best_ask_price() {
                Some(a) => {
                    if o.price >= a {
                        return Err(RebuildError::CrossedBook);
                    }
                },
                None => {
                },
            }
        },
        OrderSide::Sell => {
            match book.get_best_bid_price() {
                Some(b) => {
                    if o.price <= b {
                        return Err(RebuildError::CrossedBook);
                    }
                },
                None => {
                },
            }
        },
    }
    book.add_order_directly(o);
    add_orders_rec(book, orders, i + 1)
}

/// Non-negativity of a suffix's volume.
pub proof fn lemma_side_volume_nonneg_from(
    levels: Seq<LevelModel>,
    i: int,
    side: OrderSide,
    eid: i32,
    oid: i32,
)
    requires
        0 <= i <= levels.len(),
        forall|k: int| 0 <= k < levels.len() ==> level_wf(#[trigger] levels[k], side, eid, oid),
    ensures
        side_volume(levels.skip(i)) >= 0,
{
    assert(forall|k: int|
        0 <= k < levels.skip(i).len() ==> levels.skip(i)[k] == levels[k + i]);
    lemma_side_volume_nonneg(levels.skip(i), side, eid, oid);
}

/// In-memory matching engine for one (event, option) book.
pub struct OrderBookEngine {
    pub event_id: i32,
    pub option_id: i32,
    pub buys: Vec<PriceLevelQueue>,
    pub sells: Vec<PriceLevelQueue>,
    pub trades: Vec<Trade>,
    pub last_trade_price: Option<u64>,
}

impl OrderBookEngine {
    /// The mathematical image of the book.
    pub open spec fn model(&self) -> BookModel {
        BookModel {
            buys: side_model(self.buys@),
            sells: side_model(self.sells@),
            last_trade_price: self.last_trade_price,
        }
    }

    /// The book invariant: both sides well formed and sorted, the book not
    /// crossed, every resting order identifier unique, and the total resting
    /// volume within `MAX_BOOK_VOLUME`.
    pub open spec fn wf(&self) -> bool {
        let m = self.model();
        &&& side_wf(m.buys, OrderSide::Buy, self.event_id, self.option_id)
        &&& side_wf(m.sells, OrderSide::Sell, self.event_id, self.option_id)
        &&& no_cross(m.buys, m.sells)
        &&& forall|id: u128| side_count(m.buys, id) + side_count(m.sells, id) <= 1
        &&& side_volume(m.buys) + side_volume(m.sells) <= MAX_BOOK_VOLUME
        &&& self.trades@.len() <= TRADE_LOG_CAP
        &&& forall|k: int| 0 <= k < self.trades@.len() ==> (#[trigger] self.trades@[k]).quantity
            <= MAX_BOOK_VOLUME
    }

    /// A fresh, empty book.
    pub fn new(event_id: i32, option_id: i32) -> (r: OrderBookEngine)
        ensures
            r.wf(),
            r.event_id == event_id,
            r.option_id == option_id,
            r.model().buys.len() == 0,
            r.model().sells.len() == 0,
            r.model().last_trade_price is None,
            r.trades@.len() == 0,
    {
        let r = OrderBookEngine {
            event_id,
            option_id,
            buys: Vec::new(),
            sells: Vec::new(),
            trades: Vec::new(),
            last_trade_price: None,
        };
        proof {
            assert forall|id: u128|
                side_count(r.model().buys, id) + side_count(r.model().sells, id) <= 1 by {
                assert(side_model(r.buys@).len() == 0);
                assert(side_model(r.sells@).len() == 0);
            }
        }
        r
    }

    /// Best (highest) bid price, if any bid rests.
    pub fn get_best_bid_price(&self) -> (r: Option<u64>)
        ensures
            r == spec_best_price(self.model().buys),
    {
        if self.buys.len() > 0 {
            Some(self.buys[0].price)
        } else {
            None
        }
    }

    /// Best (lowest) ask price, if any ask rests.
    pub fn get_best_ask_price(&self) -> (r: Option<u64>)
        ensures
            r == spec_best_price(self.model().sells),
    {
        if self.sells.len() > 0 {
            Some(self.sells[0].price)
        } else {
            None
        }
    }

    /// Midpoint of the best bid and ask, truncated toward zero; `None`
    /// unless both sides rest.
    pub fn calculate_mid_price(&self) -> (r: Option<u64>)
        ensures
            r == spec_mid_price(self.model()),
    {
        if self.buys.len() > 0 && self.sells.len() > 0 {
            let b = self.buys[0].price;
            let a = self.sells[0].price;
            let mid: u128 = (b as u128 + a as u128) / 2;
            Some(mid as u64)
        } else {
            None
        }
    }

    /// Width between best ask and best bid; `None` unless both sides rest.
    pub fn calculate_spread(&self) -> (r: Option<u64>)
        requires
            self.wf(),
        ensures
            r == spec_spread(self.model()),
    {
        if self.buys.len() > 0 && self.sells.len() > 0 {
            let b = self.buys[0].price;
            let a = self.sells[0].price;
            Some(a - b)
        } else {
            None
        }
    }

    /// How often the identifier occurs among the book's resting orders.
    pub open spec fn order_id_count(&self, id: u128) -> int {
        side_count(self.model().buys, id) + side_count(self.model().sells, id)
    }

    /// Whether an order with this identifier rests in the book.
    pub fn contains_order_id(&self, id: u128) -> (r: bool)
        ensures
            r == (self.order_id_count(id) > 0),
    {
        proof {
            lemma_side_count_nonneg(self.model().buys, id);
            lemma_side_count_nonneg(self.model().sells, id);
            assert(side_model(self.buys@).skip(0) =~= side_model(self.buys@));
            assert(side_model(self.sells@).skip(0) =~= side_model(self.sells@));
        }
        side_has_rec(&self.buys, 0, id) || side_has_rec(&self.sells, 0, id)
    }

    /// Total unfilled shares resting in the book.
    pub fn book_volume(&self) -> (r: u128)
        requires
            self.wf(),
        ensures
            r == side_volume(self.model().buys) + side_volume(self.model().sells),
    {
        proof {
            assert(side_model(self.buys@).skip(0) =~= side_model(self.buys@));
            assert(side_model(self.sells@).skip(0) =~= side_model(self.sells@));
            lemma_side_volume_nonneg(self.model().buys, OrderSide::Buy, self.event_id,
                self.option_id);
            lemma_side_volume_nonneg(self.model().sells, OrderSide::Sell, self.event_id,
                self.option_id);
        }
        let b = side_volume_rec(&self.buys, 0, Ghost(OrderSide::Buy), Ghost(self.event_id),
            Ghost(self.option_id));
        let s = side_volume_rec(&self.sells, 0, Ghost(OrderSide::Sell), Ghost(self.event_id),
            Ghost(self.option_id));
        b + s
    }

    /// Cancel a resting order by identifier at time `now`. On success the
    /// removed order comes back marked cancelled, its filled amount kept;
    /// when no such order rests, the book is untouched.
    pub fn cancel_order(&mut self, order_id: u128, now: i64) -> (r: Result<Order, OrderBookError>)
        requires
            old(self).wf(),
        ensures
            final(self).wf(),
            final(self).event_id == old(self).event_id,
            final(self).option_id == old(self).option_id,
            final(self).trades@ == old(self).trades@,
            ({
                let c = spec_cancel_book(old(self).model(), order_id, now);
                &&& final(self).model() == c.book
                &&& (c.cancelled is Some ==> r == Ok::<Order, OrderBookError>(c.cancelled->0))
                &&& (c.cancelled is None ==> r == Err::<Order, OrderBookError>(
                    OrderBookError::OrderNotFound,
                ))
            }),
    {
        let ghost m0 = self.model();
        let eid = self.event_id;
        let oid = self.option_id;
        proof {
            lemma_side_cancel_props(m0.buys, order_id, OrderSide::Buy, eid, oid);
            lemma_side_cancel_props(m0.sells, order_id, OrderSide::Sell, eid, oid);
        }
        match side_cancel_rec(&mut self.buys, order_id) {
            Some(mut o) => {
                o.cancel(now);
                proof {
                    assert forall|x: u128|
                        side_count(self.model().buys, x) + side_count(self.model().sells, x)
                            <= 1 by {
                        lemma_side_count_nonneg(m0.sells, x);
                    }
                }
                Ok(o)
            },
            None => {
                match side_cancel_rec(&mut self.sells, order_id) {
                    Some(mut o) => {
                        o.cancel(now);
                        proof {
                            assert forall|x: u128|
                                side_count(self.model().buys, x) + side_count(
                                    self.model().sells,
                                    x,
                                ) <= 1 by {
                                lemma_side_count_nonneg(m0.buys, x);
                            }
                        }
                        Ok(o)
                    },
                    None => {
                        Err(OrderBookError::OrderNotFound)
                    },
                }
            },
        }
    }

    /// Place a resting order straight into the book, bypassing matching;
    /// used when a persisted book is rebuilt or liquidity is seeded. The
    /// caller guarantees a fresh identifier, room under the volume cap, and
    /// a price that does not cross the other side.
    pub fn add_order_directly(&mut self, order: Order)
        requires
            old(self).wf(),
            resting_ok(
                order,
                order.price,
                order.side,
                old(self).event_id,
                old(self).option_id,
            ),
            old(self).order_id_count(order.id) == 0,
            side_volume(old(self).model().buys) + side_volume(old(self).model().sells)
                + crate::order::spec_remaining(order) <= MAX_BOOK_VOLUME,
            ({
                let m = old(self).model();
                match order.side {
                    OrderSide::Buy => m.sells.len() == 0 || order.price < m.sells[0].price,
                    OrderSide::Sell => m.buys.len() == 0 || order.price > m.buys[0].price,
                }
            }),
        ensures
            final(self).wf(),
            final(self).event_id == old(self).event_id,
            final(self).option_id == old(self).option_id,
            final(self).trades@ == old(self).trades@,
            final(self).model().last_trade_price == old(self).model().last_trade_price,
            ({
                let m = old(self).model();
                match order.side {
                    OrderSide::Buy => final(self).model() == (BookModel {
                        buys: spec_insert(m.buys, order),
                        ..m
                    }),
                    OrderSide::Sell => final(self).model() == (BookModel {
                        sells: spec_insert(m.sells, order),
                        ..m
                    }),
                }
            }),
    {
        let ghost m0 = self.model();
        proof {
            match order.side {
                OrderSide::Buy => {
                    lemma_insert_props(m0.buys, order, self.event_id, self.option_id);
                },
                OrderSide::Sell => {
                    lemma_insert_props(m0.sells, order, self.event_id, self.option_id);
                },
            }
            lemma_side_count_nonneg(m0.buys, order.id);
            lemma_side_count_nonneg(m0.sells, order.id);
        }
        match order.side {
            OrderSide::Buy => insert_rec(&mut self.buys, order),
            OrderSide::Sell => insert_rec(&mut self.sells, order),
        }
        proof {
            assert forall|x: u128|
                side_count(self.model().buys, x) + side_count(self.model().sells, x) <= 1 by {
                lemma_side_count_nonneg(m0.buys, x);
                lemma_side_count_nonneg(m0.sells, x);
            }
        }
    }

    /// Every order resting in the book: bids best-first, then asks
    /// best-first, each level front-to-back.
    pub fn resting_orders(&self) -> (r: Vec<Order>)
        ensures
            r@ == side_orders(self.model().buys) + side_orders(self.model().sells),
    {
        let mut out: Vec<Order> = Vec::new();
        proof {
            assert(side_model(self.buys@).skip(0) =~= side_model(self.buys@));
            assert(side_model(self.sells@).skip(0) =~= side_model(self.sells@));
        }
        collect_side_rec(&mut out, &self.buys, 0);
        collect_side_rec(&mut out, &self.sells, 0);
        proof {
            assert(out@ =~= side_orders(self.model().buys) + side_orders(self.model().sells));
        }
        out
    }

    /// Rebuild a book from its stored resting orders, in storage order,
    /// restoring the last trade price; refuses stored state that could not
    /// have come from a well-formed book.
    pub fn from_orders(
        event_id: i32,
        option_id: i32,
        orders: &Vec<Order>,
        last_trade_price: Option<u64>,
    ) -> (r: Result<OrderBookEngine, RebuildError>)
        ensures
            ({
                let built = spec_rebuild(
                    Seq::empty(),
                    Seq::empty(),
                    orders@,
                    event_id,
                    option_id,
                );
                match r {
                    Ok(book) => {
                        &&& book.wf()
                        &&& book.event_id == event_id
                        &&& book.option_id == option_id
                        &&& book.trades@.len() == 0
                        &&& book.model().last_trade_price == last_trade_price
                        &&& built == Ok::<(Seq<LevelModel>, Seq<LevelModel>), RebuildError>(
                            (book.model().buys, book.model().sells),
                        )
                    },
                    Err(e) => built == Err::<(Seq<LevelModel>, Seq<LevelModel>), RebuildError>(e),
                }
            }),
    {
        let mut book = OrderBookEngine::new(event_id, option_id);
        proof {
            assert(side_model(book.buys@) =~= Seq::<LevelModel>::empty());
            assert(side_model(book.sells@) =~= Seq::<LevelModel>::empty());
        }
        match add_orders_rec(&mut book, orders, 0) {
            Ok(()) => {
                match last_trade_price {
                    Some(p) => {
                        book.set_last_trade_price(p);
                    },
                    None => {
                    },
                }
                proof {
                    assert(orders@.skip(0) =~= orders@);
                }
                Ok(book)
            },
            Err(e) => {
                proof {
                    assert(orders@.skip(0) =~= orders@);
                }
                Err(e)
            },
        }
    }

    /// The most recent trades the book remembers, oldest first, at most
    /// `count` of them.
    pub fn recent_trades(&self, count: usize) -> (r: Vec<Trade>)
        ensures
            r@ == self.trades@.skip(vstd::math::max(0, self.trades@.len() - count)),
    {
        let len = self.trades.len();
        let start = if count < len {
            len - count
        } else {
            0
        };
        let mut out: Vec<Trade> = Vec::new();
        let mut i: usize = start;
        while i < len
            invariant
                start <= i <= len,
                len == self.trades@.len(),
                out@ =~= self.trades@.subrange(start as int, i as int),
            decreases len - i,
        {
            out.push(self.trades[i]);
            i = i + 1;
        }
        proof {
            assert(out@ =~= self.trades@.skip(
                vstd::math::max(0, self.trades@.len() - count),
            ));
        }
        out
    }

    /// Record the last trade price; used when a persisted book is rebuilt.
    pub fn set_last_trade_price(&mut self, price: u64)
        ensures
            *final(self) == (OrderBookEngine { last_trade_price: Some(price), ..*old(self) }),
    {
        self.last_trade_price = Some(price);
    }
}

/// The best price of a side, which sits at its front.
pub open spec fn spec_best_price(levels: Seq<LevelModel>) -> Option<u64> {
    if levels.len() > 0 {
        Some(levels[0].price)
    } else {
        None
    }
}

/// Midpoint of best bid and best ask, truncated toward zero.
pub open spec fn spec_mid_price(m: BookModel) -> Option<u64> {
    if m.buys.len() > 0 && m.sells.len() > 0 {
        Some((((m.buys[0].price + m.sells[0].price) as int / 2) as u64))
    } else {
        None
    }
}

/// Best ask minus best bid.
pub open spec fn spec_spread(m: BookModel) -> Option<u64> {
    if m.buys.len() > 0 && m.sells.len() > 0 {
        Some(((m.sells[0].price - m.buys[0].price) as u64))
    } else {
        None
    }
}

} // verus!
