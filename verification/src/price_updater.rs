//! The option-price update rule: a fresh predicted price replaces the
//! stored one only when it has moved by more than half a percent.

use vstd::prelude::*;

verus! {

/// Whether a predicted price differs from the current one by more than
/// half a percent of the current price; exactly then an update is written.
/// One part in two hundred is half a percent, so the comparison multiplies
/// instead of dividing and loses nothing to rounding.
pub open spec fn spec_should_update_price(current: u64, predicted: u64) -> bool {
    if predicted >= current {
        (predicted - current) * 200 > current
    } else {
        (current - predicted) * 200 > current
    }
}

/// Decide whether the stored option price should move to the predicted
/// one.
pub fn should_update_price(current: u64, predicted: u64) -> (r: bool)
    ensures
        r == spec_should_update_price(current, predicted),
{
    let diff: u128 = if predicted >= current {
        (predicted - current) as u128
    } else {
        (current - predicted) as u128
    };
    diff * 200 > current as u128
}

} // verus!
