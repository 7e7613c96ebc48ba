//! Read-side queries on a book: aggregated price levels, snapshots, market
//! depth, the volume-weighted average of recent trades, and the predicted
//! price drawn from book imbalance.

use vstd::prelude::*;

use crate::book::{
    level_wf, queue_volume, side_model, side_volume, LevelModel, OrderBookEngine, PriceLevelQueue,
    MAX_BOOK_VOLUME,
};
use crate::order::OrderSide;

verus! {

/// How many levels a snapshot shows per side.
pub const SNAPSHOT_DEPTH: usize = 10;

/// How many levels per side feed the predicted price.
pub const PREDICTION_DEPTH: usize = 5;

/// One aggregated price level: total unfilled shares and order count.
#[derive(Clone, Copy, PartialEq, Eq, Structural, Debug)]
pub struct PriceLevel {
    pub price: u64,
    pub quantity: u128,
    pub order_count: usize,
}

/// A book snapshot: the best levels of each side, best first.
pub struct OrderBookSnapshot {
    pub event_id: i32,
    pub option_id: i32,
    pub bids: Vec<PriceLevel>,
    pub asks: Vec<PriceLevel>,
    pub last_trade_price: Option<u64>,
    pub mid_price: Option<u64>,
    pub spread: Option<u64>,
    pub timestamp: i64,
}

/// Both sides' aggregates at one price.
#[derive(Clone, Copy, PartialEq, Eq, Structural, Debug)]
pub struct MarketDepth {
    pub price: u64,
    pub buy_quantity: u128,
    pub sell_quantity: u128,
    pub buy_orders: usize,
    pub sell_orders: usize,
}

/// The aggregate a level shows.
pub open spec fn spec_level_aggregate(l: LevelModel) -> PriceLevel {
    PriceLevel { price: l.price, quantity: queue_volume(l.orders) as u128, order_count: l.orders.len() as usize }
}

/// Total unfilled shares over the first `n` levels of a side.
pub open spec fn spec_top_volume(levels: Seq<LevelModel>, n: int) -> int
    decreases levels.len(),
{
    if n <= 0 || levels.len() == 0 {
        0
    } else {
        queue_volume(levels[0].orders) + spec_top_volume(levels.drop_first(), n - 1)
    }
}

/// One level's volume is at most the whole side's.
pub proof fn lemma_level_volume_le_side(
    levels: Seq<LevelModel>,
    i: int,
    side: OrderSide,
    eid: i32,
    oid: i32,
)
    requires
        0 <= i < levels.len(),
        forall|k: int| 0 <= k < levels.len() ==> level_wf(#[trigger] levels[k], side, eid, oid),
    ensures
        0 <= queue_volume(levels[i].orders) <= side_volume(levels),
    decreases levels.len(),
{
    crate::book::lemma_queue_volume_nonneg(levels[i].orders);
    assert(forall|k: int|
        0 <= k < levels.drop_first().len() ==> levels.drop_first()[k] == levels[k + 1]);
    if i == 0 {
        crate::book::lemma_side_volume_nonneg(levels.drop_first(), side, eid, oid);
    } else {
        crate::book::lemma_queue_volume_nonneg(levels[0].orders);
        lemma_level_volume_le_side(levels.drop_first(), i - 1, side, eid, oid);
    }
}

/// The volume of the top `n` levels is within the side's whole volume.
pub proof fn lemma_top_volume_bounds(
    levels: Seq<LevelModel>,
    n: int,
    side: OrderSide,
    eid: i32,
    oid: i32,
)
    requires
        forall|k: int| 0 <= k < levels.len() ==> level_wf(#[trigger] levels[k], side, eid, oid),
    ensures
        0 <= spec_top_volume(levels, n) <= side_volume(levels),
    decreases levels.len(),
{
    if n <= 0 || levels.len() == 0 {
        crate::book::lemma_side_volume_nonneg(levels, side, eid, oid);
    } else {
        assert(forall|k: int|
            0 <= k < levels.drop_first().len() ==> levels.drop_first()[k] == levels[k + 1]);
        lemma_top_volume_bounds(levels.drop_first(), n - 1, side, eid, oid);
        crate::book::lemma_queue_volume_nonneg(levels[0].orders);
        crate::book::lemma_side_volume_nonneg(levels.drop_first(), side, eid, oid);
    }
}

/// Collect the aggregates of the first `depth` levels of one side.
fn side_levels(
    levels: &Vec<PriceLevelQueue>,
    depth: usize,
    Ghost(side): Ghost<OrderSide>,
    Ghost(eid): Ghost<i32>,
    Ghost(oid): Ghost<i32>,
) -> (r: Vec<PriceLevel>)
    requires
        forall|k: int| 0 <= k < levels@.len() ==> level_wf(
            #[trigger] side_model(levels@)[k],
            side,
            eid,
            oid,
        ),
        side_volume(side_model(levels@)) <= MAX_BOOK_VOLUME,
    ensures
        r@.len() == vstd::math::min(depth as int, levels@.len() as int),
        forall|k: int| 0 <= k < r@.len() ==> #[trigger] r@[k] == spec_level_aggregate(
            side_model(levels@)[k],
        ),
{
    let mut out: Vec<PriceLevel> = Vec::new();
    let mut i: usize = 0;
    let n = if depth < levels.len() {
        depth
    } else {
        levels.len()
    };
    while i < n
        invariant
            n == vstd::math::min(depth as int, levels@.len() as int),
            i <= n,
            out@.len() == i,
            forall|k: int| 0 <= k < levels@.len() ==> level_wf(
                #[trigger] side_model(levels@)[k],
                side,
                eid,
                oid,
            ),
            side_volume(side_model(levels@)) <= MAX_BOOK_VOLUME,
            forall|k: int| 0 <= k < i ==> #[trigger] out@[k] == spec_level_aggregate(
                side_model(levels@)[k],
            ),
        decreases n - i,
    {
        proof {
            lemma_level_volume_le_side(side_model(levels@), i as int, side, eid, oid);
            assert(levels@[i as int]@.orders.skip(0) =~= levels@[i as int]@.orders);
        }
        let q = crate::book::queue_volume_rec(&levels[i].orders, 0);
        out.push(
            PriceLevel { price: levels[i].price, quantity: q, order_count: levels[i].orders.len() },
        );
        i = i + 1;
    }
    out
}

impl OrderBookEngine {
    /// The best bid levels, highest price first, at most `SNAPSHOT_DEPTH`.
    pub fn get_bid_levels(&self) -> (r: Vec<PriceLevel>)
        requires
            self.wf(),
        ensures
            r@.len() == vstd::math::min(SNAPSHOT_DEPTH as int, self.model().buys.len() as int),
            forall|k: int| 0 <= k < r@.len() ==> #[trigger] r@[k] == spec_level_aggregate(
                self.model().buys[k],
            ),
    {
        proof {
            crate::book::lemma_side_volume_nonneg(self.model().sells, OrderSide::Sell,
                self.event_id, self.option_id);
        }
        side_levels(&self.buys, SNAPSHOT_DEPTH, Ghost(OrderSide::Buy), Ghost(self.event_id),
            Ghost(self.option_id))
    }

    /// The best ask levels, lowest price first, at most `SNAPSHOT_DEPTH`.
    pub fn get_ask_levels(&self) -> (r: Vec<PriceLevel>)
        requires
            self.wf(),
        ensures
            r@.len() == vstd::math::min(SNAPSHOT_DEPTH as int, self.model().sells.len() as int),
            forall|k: int| 0 <= k < r@.len() ==> #[trigger] r@[k] == spec_level_aggregate(
                self.model().sells[k],
            ),
    {
        proof {
            crate::book::lemma_side_volume_nonneg(self.model().buys, OrderSide::Buy, self.event_id,
                self.option_id);
        }
        side_levels(&self.sells, SNAPSHOT_DEPTH, Ghost(OrderSide::Sell), Ghost(self.event_id),
            Ghost(self.option_id))
    }

    /// A snapshot of the book at time `now`: best levels, last trade price,
    /// midpoint and spread.
    pub fn get_snapshot(&self, now: i64) -> (r: OrderBookSnapshot)
        requires
            self.wf(),
        ensures
            r.event_id == self.event_id,
            r.option_id == self.option_id,
            r.bids@.len() == vstd::math::min(SNAPSHOT_DEPTH as int, self.model().buys.len() as int),
            forall|k: int| 0 <= k < r.bids@.len() ==> #[trigger] r.bids@[k] == spec_level_aggregate(
                self.model().buys[k],
            ),
            r.asks@.len() == vstd::math::min(
                SNAPSHOT_DEPTH as int,
                self.model().sells.len() as int,
            ),
            forall|k: int| 0 <= k < r.asks@.len() ==> #[trigger] r.asks@[k] == spec_level_aggregate(
                self.model().sells[k],
            ),
            r.last_trade_price == self.model().last_trade_price,
            r.mid_price == crate::book::spec_mid_price(self.model()),
            r.spread == crate::book::spec_spread(self.model()),
            r.timestamp == now,
    {
        let bids = self.get_bid_levels();
        let asks = self.get_ask_levels();
        let mid_price = self.calculate_mid_price();
        let spread = self.calculate_spread();
        OrderBookSnapshot {
            event_id: self.event_id,
            option_id: self.option_id,
            bids,
            asks,
            last_trade_price: self.last_trade_price,
            mid_price,
            spread,
            timestamp: now,
        }
    }

    /// The volume-weighted average price of the most recent trades, at most
    /// `trade_count` of them, truncated toward zero; `None` when no trade
    /// with shares is in the window.
    pub fn calculate_vwap(&self, trade_count: usize) -> (r: Option<u64>)
        requires
            self.wf(),
        ensures
            ({
                let n = vstd::math::min(trade_count as int, self.trades@.len() as int);
                let window = self.trades@.skip(self.trades@.len() - n);
                if crate::matching::trades_qty(window) > 0 {
                    r == Some(
                        ((crate::matching::trades_cost(window) / crate::matching::trades_qty(
                            window,
                        )) as u64),
                    )
                } else {
                    r is None
                }
            }),
    {
        let len = self.trades.len();
        let n = if trade_count < len {
            trade_count
        } else {
            len
        };
        let start = len - n;
        proof {
            lemma_log_sums_bounded(self.trades@, start as int);
            crate::matching::lemma_trades_sums_nonneg(self.trades@.skip(start as int));
        }
        let (cost, qty) = crate::matching::trades_sums_rec(&self.trades, start);
        if qty == 0 {
            return None;
        }
        proof {
            lemma_vwap_fits(self.trades@.skip(start as int));
        }
        Some((cost / qty) as u64)
    }

    /// The predicted price from book imbalance: with both sides quoted, the
    /// best bid weighted by the ask-side volume plus the best ask weighted
    /// by the bid-side volume, over the top `PREDICTION_DEPTH` levels; the
    /// midpoint when those levels are empty, and the last trade price when
    /// either side has no orders at all.
    pub fn get_predicted_price(&self) -> (r: Option<u64>)
        requires
            self.wf(),
        ensures
            r == spec_predicted_price(self.model()),
    {
        if self.buys.len() == 0 || self.sells.len() == 0 {
            return self.last_trade_price;
        }
        proof {
            lemma_top_volume_bounds(self.model().buys, PREDICTION_DEPTH as int, OrderSide::Buy,
                self.event_id, self.option_id);
            lemma_top_volume_bounds(self.model().sells, PREDICTION_DEPTH as int, OrderSide::Sell,
                self.event_id, self.option_id);
            crate::book::lemma_side_volume_nonneg(self.model().buys, OrderSide::Buy, self.event_id,
                self.option_id);
            crate::book::lemma_side_volume_nonneg(self.model().sells, OrderSide::Sell,
                self.event_id, self.option_id);
            assert(side_model(self.buys@).skip(0) =~= side_model(self.buys@));
            assert(side_model(self.sells@).skip(0) =~= side_model(self.sells@));
        }
        let bid_volume = top_volume_rec(&self.buys, 0, PREDICTION_DEPTH, Ghost(OrderSide::Buy),
            Ghost(self.event_id), Ghost(self.option_id));
        let ask_volume = top_volume_rec(&self.sells, 0, PREDICTION_DEPTH, Ghost(OrderSide::Sell),
            Ghost(self.event_id), Ghost(self.option_id));
        let total = bid_volume + ask_volume;
        if total == 0 {
            return self.calculate_mid_price();
        }
        let best_bid = self.buys[0].price;
        let best_ask = self.sells[0].price;
        let bid_weight = bid_volume * (crate::PRICE_SCALE as u128) / total;
        let ask_weight = ask_volume * (crate::PRICE_SCALE as u128) / total;
        proof {
            lemma_weighted_price_fits(best_bid as int, best_ask as int, bid_volume as int,
                ask_volume as int);
        }
        let predicted = ((best_bid as u128) * ask_weight + (best_ask as u128) * bid_weight)
            / (crate::PRICE_SCALE as u128);
        Some(predicted as u64)
    }
}

/// Merge two aggregate lists, both ascending by price, into one ascending
/// depth list; equal prices combine into one row.
pub open spec fn spec_merge_depth(bids: Seq<PriceLevel>, asks: Seq<PriceLevel>) -> Seq<MarketDepth>
    decreases bids.len() + asks.len(),
{
    if bids.len() == 0 && asks.len() == 0 {
        Seq::empty()
    } else if asks.len() == 0 || (bids.len() > 0 && bids[0].price < asks[0].price) {
        seq![
            MarketDepth {
                price: bids[0].price,
                buy_quantity: bids[0].quantity,
                sell_quantity: 0,
                buy_orders: bids[0].order_count,
                sell_orders: 0,
            },
        ] + spec_merge_depth(bids.drop_first(), asks)
    } else if bids.len() == 0 || bids[0].price > asks[0].price {
        seq![
            MarketDepth {
                price: asks[0].price,
                buy_quantity: 0,
                sell_quantity: asks[0].quantity,
                buy_orders: 0,
                sell_orders: asks[0].order_count,
            },
        ] + spec_merge_depth(bids, asks.drop_first())
    } else {
        seq![
            MarketDepth {
                price: bids[0].price,
                buy_quantity: bids[0].quantity,
                sell_quantity: asks[0].quantity,
                buy_orders: bids[0].order_count,
                sell_orders: asks[0].order_count,
            },
        ] + spec_merge_depth(bids.drop_first(), asks.drop_first())
    }
}

/// The market depth of a book: the top `n` levels of each side, merged
/// into one list ascending by price.
pub open spec fn spec_market_depth(m: crate::book::BookModel, n: int) -> Seq<MarketDepth> {
    let bids = m.buys.take(vstd::math::min(n, m.buys.len() as int)).map_values(
        |l: LevelModel| spec_level_aggregate(l),
    ).reverse();
    let asks = m.sells.take(vstd::math::min(n, m.sells.len() as int)).map_values(
        |l: LevelModel| spec_level_aggregate(l),
    );
    spec_merge_depth(bids, asks)
}

/// Executable merge of two ascending aggregate lists from positions
/// `bi` and `ai` on.
fn merge_depth_rec(
    out: &mut Vec<MarketDepth>,
    bids: &Vec<PriceLevel>,
    asks: &Vec<PriceLevel>,
    bi: usize,
    ai: usize,
)
    requires
        bi <= bids@.len(),
        ai <= asks@.len(),
    ensures
        final(out)@ == old(out)@ + spec_merge_depth(bids@.skip(bi as int), asks@.skip(ai as int)),
    decreases bids@.len() - bi + asks@.len() - ai,
{
    let ghost b = bids@.skip(bi as int);
    let ghost a = asks@.skip(ai as int);
    let ghost o0 = out@;
    if bi == bids.len() && ai == asks.len() {
        proof {
            assert(o0 + spec_merge_depth(b, a) =~= o0);
        }
        return ;
    }
    proof {
        if b.len() > 0 {
            assert(b[0] == bids@[bi as int]);
            assert(b.drop_first() =~= bids@.skip(bi as int + 1));
        }
        if a.len() > 0 {
            assert(a[0] == asks@[ai as int]);
            assert(a.drop_first() =~= asks@.skip(ai as int + 1));
        }
    }
    if ai == asks.len() || (bi < bids.len() && bids[bi].price < asks[ai].price) {
        out.push(
            MarketDepth {
                price: bids[bi].price,
                buy_quantity: bids[bi].quantity,
                sell_quantity: 0,
                buy_orders: bids[bi].order_count,
                sell_orders: 0,
            },
        );
        merge_depth_rec(out, bids, asks, bi + 1, ai);
        proof {
            assert(out@ =~= o0 + spec_merge_depth(b, a));
        }
    } else if bi == bids.len() || bids[bi].price > asks[ai].price {
        out.push(
            MarketDepth {
                price: asks[ai].price,
                buy_quantity: 0,
                sell_quantity: asks[ai].quantity,
                buy_orders: 0,
                sell_orders: asks[ai].order_count,
            },
        );
        merge_depth_rec(out, bids, asks, bi, ai + 1);
        proof {
            assert(out@ =~= o0 + spec_merge_depth(b, a));
        }
    } else {
        out.push(
            MarketDepth {
                price: bids[bi].price,
                buy_quantity: bids[bi].quantity,
                sell_quantity: asks[ai].quantity,
                buy_orders: bids[bi].order_count,
                sell_orders: asks[ai].order_count,
            },
        );
        merge_depth_rec(out, bids, asks, bi + 1, ai + 1);
        proof {
            assert(out@ =~= o0 + spec_merge_depth(b, a));
        }
    }
}

impl OrderBookEngine {
    /// The merged market depth over the top `levels` price levels of each
    /// side, ascending by price.
    pub fn get_market_depth(&self, levels: usize) -> (r: Vec<MarketDepth>)
        requires
            self.wf(),
        ensures
            r@ == spec_market_depth(self.model(), levels as int),
    {
        proof {
            crate::book::lemma_side_volume_nonneg(self.model().buys, OrderSide::Buy, self.event_id,
                self.option_id);
            crate::book::lemma_side_volume_nonneg(self.model().sells, OrderSide::Sell,
                self.event_id, self.option_id);
        }
        let bids_desc = side_levels(&self.buys, levels, Ghost(OrderSide::Buy),
            Ghost(self.event_id), Ghost(self.option_id));
        let asks = side_levels(&self.sells, levels, Ghost(OrderSide::Sell), Ghost(self.event_id),
            Ghost(self.option_id));
        let mut bids_asc: Vec<PriceLevel> = Vec::new();
        let mut i: usize = bids_desc.len();
        while i > 0
            invariant
                i <= bids_desc@.len(),
                bids_asc@.len() == bids_desc@.len() - i,
                forall|k: int| 0 <= k < bids_asc@.len() ==> #[trigger] bids_asc@[k]
                    == bids_desc@[bids_desc@.len() - 1 - k],
            decreases i,
        {
            i = i - 1;
            bids_asc.push(bids_desc[i]);
        }
        let mut out: Vec<MarketDepth> = Vec::new();
        proof {
            let n = levels as int;
            let taken_bids = self.model().buys.take(
                vstd::math::min(n, self.model().buys.len() as int),
            ).map_values(|l: LevelModel| spec_level_aggregate(l)).reverse();
            let taken_asks = self.model().sells.take(
                vstd::math::min(n, self.model().sells.len() as int),
            ).map_values(|l: LevelModel| spec_level_aggregate(l));
            assert(bids_asc@ =~= taken_bids);
            assert(asks@ =~= taken_asks);
            assert(bids_asc@.skip(0) =~= bids_asc@);
            assert(asks@.skip(0) =~= asks@);
        }
        merge_depth_rec(&mut out, &bids_asc, &asks, 0, 0);
        out
    }
}

/// The predicted price of a book model; see `get_predicted_price`.
pub open spec fn spec_predicted_price(m: crate::book::BookModel) -> Option<u64> {
    if m.buys.len() == 0 || m.sells.len() == 0 {
        m.last_trade_price
    } else {
        let bv = spec_top_volume(m.buys, PREDICTION_DEPTH as int);
        let av = spec_top_volume(m.sells, PREDICTION_DEPTH as int);
        if bv + av == 0 {
            crate::book::spec_mid_price(m)
        } else {
            let bw = bv * crate::PRICE_SCALE / (bv + av);
            let aw = av * crate::PRICE_SCALE / (bv + av);
            Some(
                (((m.buys[0].price * aw + m.sells[0].price * bw) / (
                crate::PRICE_SCALE as int)) as u64),
            )
        }
    }
}

/// Executable volume of the top `n` levels from position `i` on.
fn top_volume_rec(
    levels: &Vec<PriceLevelQueue>,
    i: usize,
    n: usize,
    Ghost(side): Ghost<OrderSide>,
    Ghost(eid): Ghost<i32>,
    Ghost(oid): Ghost<i32>,
) -> (r: u128)
    requires
        i <= levels@.len(),
        forall|k: int| 0 <= k < levels@.len() ==> level_wf(
            #[trigger] side_model(levels@)[k],
            side,
            eid,
            oid,
        ),
        spec_top_volume(side_model(levels@).skip(i as int), n as int) <= MAX_BOOK_VOLUME,
    ensures
        r == spec_top_volume(side_model(levels@).skip(i as int), n as int),
    decreases levels@.len() - i,
{
    if n == 0 || i == levels.len() {
        return 0;
    }
    let ghost tail = side_model(levels@).skip(i as int);
    proof {
        assert(tail[0] == levels@[i as int]@);
        assert(tail.drop_first() =~= side_model(levels@).skip(i as int + 1));
        crate::book::lemma_queue_volume_nonneg(levels@[i as int]@.orders);
        assert(forall|k: int|
            0 <= k < tail.drop_first().len() ==> #[trigger] tail.drop_first()[k] == side_model(
                levels@,
            )[k + i + 1]);
        lemma_top_volume_sane_nonneg(tail.drop_first(), n as int - 1, side, eid, oid);
        assert(levels@[i as int]@.orders.skip(0) =~= levels@[i as int]@.orders);
    }
    let head = crate::book::queue_volume_rec(&levels[i].orders, 0);
    let rest = top_volume_rec(levels, i + 1, n - 1, Ghost(side), Ghost(eid), Ghost(oid));
    head + rest
}

/// Non-negativity of a top-`n` volume over well-formed levels.
proof fn lemma_top_volume_sane_nonneg(
    levels: Seq<LevelModel>,
    n: int,
    side: OrderSide,
    eid: i32,
    oid: i32,
)
    requires
        forall|k: int| 0 <= k < levels.len() ==> level_wf(#[trigger] levels[k], side, eid, oid),
    ensures
        spec_top_volume(levels, n) >= 0,
    decreases levels.len(),
{
    if n <= 0 || levels.len() == 0 {
    } else {
        crate::book::lemma_queue_volume_nonneg(levels[0].orders);
        assert(forall|k: int|
            0 <= k < levels.drop_first().len() ==> #[trigger] levels.drop_first()[k] == levels[k
                + 1]);
        lemma_top_volume_sane_nonneg(levels.drop_first(), n - 1, side, eid, oid);
    }
}

/// A trade log kept by a well-formed book has sums far inside machine
/// range.
proof fn lemma_log_sums_bounded(ts: Seq<crate::order::Trade>, i: int)
    requires
        0 <= i <= ts.len(),
        ts.len() <= crate::book::TRADE_LOG_CAP,
        forall|k: int| 0 <= k < ts.len() ==> (#[trigger] ts[k]).quantity <= MAX_BOOK_VOLUME,
    ensures
        crate::matching::trades_cost(ts.skip(i)) <= (ts.len() - i) * 0x10000000000000000000000000000,
        crate::matching::trades_qty(ts.skip(i)) <= (ts.len() - i) * 0x10000000000000000000000000000,
        crate::matching::trades_cost(ts.skip(i)) <= u128::MAX,
        crate::matching::trades_qty(ts.skip(i)) <= u128::MAX,
    decreases ts.len() - i,
{
    let per: int = 0x10000000000000000000000000000;
    if i == ts.len() {
        assert(ts.skip(i).len() == 0);
    } else {
        assert(ts.skip(i)[0] == ts[i]);
        assert(ts.skip(i).drop_first() =~= ts.skip(i + 1));
        lemma_log_sums_bounded(ts, i + 1);
        assert(ts[i].price * ts[i].quantity <= per) by (nonlinear_arith)
            requires
                ts[i].price <= u64::MAX,
                ts[i].quantity <= MAX_BOOK_VOLUME,
                per == 0x10000000000000000000000000000,
                MAX_BOOK_VOLUME == 1_000_000_000_000u128,
        ;
        assert((ts.len() - i) * per == per + (ts.len() - (i + 1)) * per) by (nonlinear_arith);
        assert((ts.len() - i) * per <= 1000 * per) by (nonlinear_arith)
            requires
                ts.len() - i <= 1000,
                per > 0,
        ;
    }
}

/// A window's average price fits a 64-bit integer.
proof fn lemma_vwap_fits(ts: Seq<crate::order::Trade>)
    requires
        crate::matching::trades_qty(ts) > 0,
    ensures
        0 <= crate::matching::trades_cost(ts) / crate::matching::trades_qty(ts) <= u64::MAX,
{
    lemma_trades_cost_le_max_qty(ts);
    crate::matching::lemma_trades_sums_nonneg(ts);
    let c = crate::matching::trades_cost(ts);
    let q = crate::matching::trades_qty(ts);
    assert(c / q <= u64::MAX) by (nonlinear_arith)
        requires
            0 <= c,
            c <= u64::MAX * q,
            q >= 1,
    ;
    assert(c / q >= 0) by (nonlinear_arith)
        requires
            c >= 0,
            q >= 1,
    ;
}

/// The cost sum is at most the largest price times the quantity sum.
proof fn lemma_trades_cost_le_max_qty(ts: Seq<crate::order::Trade>)
    ensures
        crate::matching::trades_cost(ts) <= u64::MAX * crate::matching::trades_qty(ts),
    decreases ts.len(),
{
    if ts.len() == 0 {
        assert(u64::MAX * crate::matching::trades_qty(ts) == 0) by (nonlinear_arith)
            requires
                crate::matching::trades_qty(ts) == 0,
        ;
    } else {
        lemma_trades_cost_le_max_qty(ts.drop_first());
        assert(ts[0].price * ts[0].quantity <= u64::MAX * ts[0].quantity) by (nonlinear_arith)
            requires
                ts[0].price <= u64::MAX,
                ts[0].quantity >= 0,
        ;
        assert(u64::MAX * (ts[0].quantity + crate::matching::trades_qty(ts.drop_first()))
            == u64::MAX * ts[0].quantity + u64::MAX * crate::matching::trades_qty(
            ts.drop_first(),
        )) by (nonlinear_arith);
    }
}

/// The two imbalance weights and the weighted price stay in range.
proof fn lemma_weighted_price_fits(bid: int, ask: int, bv: int, av: int)
    requires
        0 <= bid <= u64::MAX,
        0 <= ask <= u64::MAX,
        0 <= bv <= MAX_BOOK_VOLUME,
        0 <= av <= MAX_BOOK_VOLUME,
        bv + av >= 1,
    ensures
        ({
            let s = crate::PRICE_SCALE as int;
            let t = bv + av;
            let bw = bv * s / t;
            let aw = av * s / t;
            &&& 0 <= bv * s <= u128::MAX
            &&& 0 <= av * s <= u128::MAX
            &&& 0 <= bw <= s
            &&& 0 <= aw <= s
            &&& bw + aw <= s
            &&& 0 <= bid * aw + ask * bw <= u128::MAX
            &&& 0 <= (bid * aw + ask * bw) / s <= u64::MAX
        }),
{
    let s = crate::PRICE_SCALE as int;
    let t = bv + av;
    assert(0 <= bv * s <= u128::MAX && 0 <= av * s <= u128::MAX) by (nonlinear_arith)
        requires
            0 <= bv <= MAX_BOOK_VOLUME,
            0 <= av <= MAX_BOOK_VOLUME,
            s == 100_000_000,
            MAX_BOOK_VOLUME == 1_000_000_000_000u128,
    ;
    vstd::arithmetic::div_mod::lemma_fundamental_div_mod(bv * s, t);
    vstd::arithmetic::div_mod::lemma_fundamental_div_mod(av * s, t);
    vstd::arithmetic::div_mod::lemma_mod_bound(bv * s, t);
    vstd::arithmetic::div_mod::lemma_mod_bound(av * s, t);
    vstd::arithmetic::div_mod::lemma_div_pos_is_pos(bv * s, t);
    vstd::arithmetic::div_mod::lemma_div_pos_is_pos(av * s, t);
    let bw = bv * s / t;
    let aw = av * s / t;
    assert(bw * t + aw * t <= bv * s + av * s) by (nonlinear_arith)
        requires
            bv * s == t * (bv * s / t) + (bv * s) % t,
            av * s == t * (av * s / t) + (av * s) % t,
            bw == bv * s / t,
            aw == av * s / t,
            (bv * s) % t >= 0,
            (av * s) % t >= 0,
    ;
    assert(bv * s + av * s == t * s) by (nonlinear_arith)
        requires
            t == bv + av,
    ;
    assert(bw + aw <= s) by (nonlinear_arith)
        requires
            bw * t + aw * t <= t * s,
            t >= 1,
    ;
    let num = bid * aw + ask * bw;
    assert(0 <= num) by (nonlinear_arith)
        requires
            num == bid * aw + ask * bw,
            bid >= 0,
            ask >= 0,
            aw >= 0,
            bw >= 0,
    ;
    assert(num <= u64::MAX * s) by (nonlinear_arith)
        requires
            num == bid * aw + ask * bw,
            0 <= bid <= u64::MAX,
            0 <= ask <= u64::MAX,
            aw >= 0,
            bw >= 0,
            aw + bw <= s,
    ;
    assert(u64::MAX * s <= u128::MAX) by (nonlinear_arith)
        requires
            s == 100_000_000,
    ;
    vstd::arithmetic::div_mod::lemma_div_is_ordered(num, u64::MAX * s, s);
    vstd::arithmetic::div_mod::lemma_div_pos_is_pos(num, s);
    assert((u64::MAX * s) / s == u64::MAX) by {
        vstd::arithmetic::div_mod::lemma_div_by_multiple(u64::MAX as int, s);
    }
}

} // verus!
