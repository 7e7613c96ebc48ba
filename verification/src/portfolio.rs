//! Portfolio valuation: what a set of positions cost and what it is worth
//! at current option prices.

use vstd::prelude::*;

use crate::position::Position;

verus! {

/// What the holder paid for the position, at its average price.
pub open spec fn spec_position_cost(p: Position) -> int {
    p.average_price * p.quantity
}

/// What the position is worth at the option's current price.
pub open spec fn spec_position_value(p: Position, current_price: u64) -> int {
    current_price * p.quantity
}

/// Total cost of the positions from index `i` on.
pub open spec fn spec_total_invested(ps: Seq<Position>) -> int
    decreases ps.len(),
{
    if ps.len() == 0 {
        0
    } else {
        spec_position_cost(ps[0]) + spec_total_invested(ps.drop_first())
    }
}

/// Total worth of the positions at the parallel list of current prices.
pub open spec fn spec_total_value(ps: Seq<Position>, prices: Seq<u64>) -> int
    decreases ps.len(),
{
    if ps.len() == 0 {
        0
    } else {
        spec_position_value(ps[0], prices[0]) + spec_total_value(
            ps.drop_first(),
            prices.drop_first(),
        )
    }
}

/// Valuation sums are non-negative.
pub proof fn lemma_valuation_nonneg(ps: Seq<Position>, prices: Seq<u64>)
    ensures
        spec_total_invested(ps) >= 0,
        spec_total_value(ps, prices) >= 0,
    decreases ps.len(),
{
    if ps.len() > 0 {
        lemma_valuation_nonneg(ps.drop_first(), prices.drop_first());
        assert(spec_position_cost(ps[0]) >= 0) by (nonlinear_arith)
            requires
                ps[0].average_price >= 0,
                ps[0].quantity >= 0,
        ;
        assert(spec_position_value(ps[0], prices[0]) >= 0) by (nonlinear_arith)
            requires
                prices[0] >= 0,
                ps[0].quantity >= 0,
        ;
    }
}

/// The position's cost basis times its size.
pub fn position_cost(p: &Position) -> (r: u128)
    ensures
        r == spec_position_cost(*p),
{
    proof {
        assert((p.average_price as int) * (p.quantity as int) <= u128::MAX) by (nonlinear_arith)
            requires
                p.average_price <= u64::MAX,
                p.quantity <= u64::MAX,
        ;
    }
    (p.average_price as u128) * (p.quantity as u128)
}

/// The position's worth at the current price.
pub fn position_value(p: &Position, current_price: u64) -> (r: u128)
    ensures
        r == spec_position_value(*p, current_price),
{
    proof {
        assert((current_price as int) * (p.quantity as int) <= u128::MAX) by (nonlinear_arith)
            requires
                current_price <= u64::MAX,
                p.quantity <= u64::MAX,
        ;
    }
    (current_price as u128) * (p.quantity as u128)
}

/// Sum invested and current worth from position `i` on; `prices[k]` is the
/// current price of `positions[k]`'s option.
fn totals_rec(positions: &Vec<Position>, prices: &Vec<u64>, i: usize) -> (r: (u128, u128))
    requires
        positions@.len() == prices@.len(),
        i <= positions@.len(),
        spec_total_invested(positions@.skip(i as int)) <= u128::MAX,
        spec_total_value(positions@.skip(i as int), prices@.skip(i as int)) <= u128::MAX,
    ensures
        r.0 == spec_total_invested(positions@.skip(i as int)),
        r.1 == spec_total_value(positions@.skip(i as int), prices@.skip(i as int)),
    decreases positions@.len() - i,
{
    if i == positions.len() {
        return (0, 0);
    }
    proof {
        assert(positions@.skip(i as int)[0] == positions@[i as int]);
        assert(prices@.skip(i as int)[0] == prices@[i as int]);
        assert(positions@.skip(i as int).drop_first() =~= positions@.skip(i as int + 1));
        assert(prices@.skip(i as int).drop_first() =~= prices@.skip(i as int + 1));
        lemma_valuation_nonneg(positions@.skip(i as int + 1), prices@.skip(i as int + 1));
    }
    let cost = position_cost(&positions[i]);
    let value = position_value(&positions[i], prices[i]);
    let (rest_cost, rest_value) = totals_rec(positions, prices, i + 1);
    (cost + rest_cost, value + rest_value)
}

/// Total invested and total current worth of a set of positions, with the
/// parallel list of their options' current prices.
pub fn portfolio_totals(positions: &Vec<Position>, prices: &Vec<u64>) -> (r: (u128, u128))
    requires
        positions@.len() == prices@.len(),
        spec_total_invested(positions@) <= u128::MAX,
        spec_total_value(positions@, prices@) <= u128::MAX,
    ensures
        r.0 == spec_total_invested(positions@),
        r.1 == spec_total_value(positions@, prices@),
{
    proof {
        assert(positions@.skip(0) =~= positions@);
        assert(prices@.skip(0) =~= prices@);
    }
    totals_rec(positions, prices, 0)
}

} // verus!
