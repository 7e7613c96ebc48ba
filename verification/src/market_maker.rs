//! Market-maker seeding: the symmetric ladder of resting orders an
//! administrator may place around an initial implied probability before an
//! event goes live.

use vstd::prelude::*;

verus! {

/// Highest admissible price: an implied probability of one, at 100.00.
pub const LADDER_PRICE_CAP: u64 = 10_000_000_000;

/// How a liquidity ladder is built. The spread is a fraction in
/// `PRICE_SCALE` units (`2_000_000` is two percent); prices and the step
/// are fixed-point as everywhere.
#[derive(Clone, Copy, PartialEq, Eq, Structural, Debug)]
pub struct MarketMakerConfig {
    pub market_maker_user_id: i32,
    pub initial_price: u64,
    pub spread_percentage: u64,
    pub depth_levels: usize,
    pub level_quantity: u64,
    pub price_step: u64,
}

impl Default for MarketMakerConfig {
    /// The stock configuration: the system account quotes five levels of a
    /// hundred shares each around 50.00 with a two-percent spread and
    /// whole-unit steps.
    fn default() -> (r: MarketMakerConfig)
        ensures
            r == (MarketMakerConfig {
                market_maker_user_id: 1,
                initial_price: (50 * crate::PRICE_SCALE as int) as u64,
                spread_percentage: 2_000_000,
                depth_levels: 5,
                level_quantity: 100,
                price_step: crate::PRICE_SCALE,
            }),
    {
        MarketMakerConfig {
            market_maker_user_id: 1,
            initial_price: 50 * crate::PRICE_SCALE,
            spread_percentage: 2_000_000,
            depth_levels: 5,
            level_quantity: 100,
            price_step: crate::PRICE_SCALE,
        }
    }
}

/// The ask ladder: up to `n` prices climbing from `base` by `step`,
/// stopping before any price over the cap.
pub open spec fn spec_ask_ladder(base: int, step: int, n: int) -> Seq<u64>
    decreases n,
{
    if n <= 0 || base > LADDER_PRICE_CAP {
        Seq::empty()
    } else {
        seq![base as u64] + spec_ask_ladder(base + step, step, n - 1)
    }
}

/// The bid ladder: up to `n` prices falling from `base` by `step`,
/// stopping before zero or below.
pub open spec fn spec_bid_ladder(base: int, step: int, n: int) -> Seq<u64>
    decreases n,
{
    if n <= 0 || base <= 0 {
        Seq::empty()
    } else {
        seq![base as u64] + spec_bid_ladder(base - step, step, n - 1)
    }
}

/// The first ask price: the initial price lifted by half the spread.
pub open spec fn spec_ask_base(c: MarketMakerConfig) -> int {
    c.initial_price + (c.initial_price * (c.spread_percentage / 2)) / (crate::PRICE_SCALE as int)
}

/// The first bid price: the initial price lowered by half the spread.
pub open spec fn spec_bid_base(c: MarketMakerConfig) -> int {
    c.initial_price - (c.initial_price * (c.spread_percentage / 2)) / (crate::PRICE_SCALE as int)
}

/// Shares the market maker must hold to cover its ask ladder.
pub fn total_shares_needed(c: &MarketMakerConfig) -> (r: u128)
    ensures
        r == c.level_quantity * c.depth_levels,
{
    proof {
        assert((c.level_quantity as int) * (c.depth_levels as int) <= u128::MAX)
            by (nonlinear_arith)
            requires
                c.level_quantity <= u64::MAX,
                c.depth_levels <= usize::MAX,
        ;
    }
    (c.level_quantity as u128) * (c.depth_levels as u128)
}

/// Collect the ladder climbing (or falling) from `base` for `n` steps.
fn ladder_rec(base: u128, step: u64, n: usize, upward: bool) -> (r: Vec<u64>)
    ensures
        upward ==> r@ == spec_ask_ladder(base as int, step as int, n as int),
        !upward ==> r@ == spec_bid_ladder(base as int, step as int, n as int),
    decreases n,
{
    if n == 0 {
        return Vec::new();
    }
    if upward {
        if base > LADDER_PRICE_CAP as u128 {
            return Vec::new();
        }
        let next = base + step as u128;
        let mut rest = ladder_rec(next, step, n - 1, true);
        rest.insert(0, base as u64);
        proof {
            assert(rest@ =~= spec_ask_ladder(base as int, step as int, n as int));
        }
        rest
    } else {
        if base == 0 {
            return Vec::new();
        }
        let next = if base >= step as u128 {
            base - step as u128
        } else {
            0
        };
        let ghost ideal = base as int - step as int;
        let mut rest = ladder_rec(next, step, n - 1, false);
        proof {
            if ideal <= 0 {
                assert(spec_bid_ladder(ideal, step as int, n as int - 1) =~= Seq::<u64>::empty());
                if next == 0 {
                    assert(spec_bid_ladder(next as int, step as int, n as int - 1)
                        =~= Seq::<u64>::empty());
                }
            }
        }
        rest.insert(0, base as u64);
        proof {
            assert(rest@ =~= spec_bid_ladder(base as int, step as int, n as int));
        }
        rest
    }
}

/// The orders that seed initial liquidity: the ask ladder above the
/// initial price and the bid ladder below it, each level quoting
/// `level_quantity` shares for the market-maker account.
pub fn seed_ladder(c: &MarketMakerConfig) -> (r: (Vec<u64>, Vec<u64>))
    requires
        c.initial_price * (c.spread_percentage / 2) / (crate::PRICE_SCALE as int)
            + c.initial_price + c.depth_levels * c.price_step <= u128::MAX,
    ensures
        r.0@ == spec_ask_ladder(spec_ask_base(*c), c.price_step as int, c.depth_levels as int),
        r.1@ == spec_bid_ladder(spec_bid_base(*c), c.price_step as int, c.depth_levels as int),
{
    let half_spread = c.spread_percentage / 2;
    proof {
        assert((c.initial_price as int) * (half_spread as int) <= u128::MAX) by (nonlinear_arith)
            requires
                c.initial_price <= u64::MAX,
                half_spread <= u64::MAX,
        ;
        assert((c.initial_price as int) * (half_spread as int) >= 0) by (nonlinear_arith)
            requires
                c.initial_price >= 0,
                half_spread >= 0,
        ;
        vstd::arithmetic::div_mod::lemma_div_pos_is_pos(
            (c.initial_price as int) * (half_spread as int),
            crate::PRICE_SCALE as int,
        );
    }
    let lift: u128 = (c.initial_price as u128) * (half_spread as u128) / (crate::PRICE_SCALE
        as u128);
    let ask_base: u128 = (c.initial_price as u128) + lift;
    let bid_base: u128 = if (c.initial_price as u128) >= lift {
        (c.initial_price as u128) - lift
    } else {
        0
    };
    let ghost ideal_bid = c.initial_price as int - lift as int;
    let asks = ladder_rec(ask_base, c.price_step, c.depth_levels, true);
    proof {
        if ideal_bid <= 0 && bid_base == 0 {
            assert(spec_bid_ladder(ideal_bid, c.price_step as int, c.depth_levels as int)
                =~= Seq::<u64>::empty());
            assert(spec_bid_ladder(0, c.price_step as int, c.depth_levels as int)
                =~= Seq::<u64>::empty());
        }
    }
    let bids = ladder_rec(bid_base, c.price_step, c.depth_levels, false);
    (asks, bids)
}

} // verus!
