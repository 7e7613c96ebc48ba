//! Matching-and-settlement core of a prediction-market exchange.
//!
//! All prices and monetary amounts are fixed-point decimals held in plain
//! integers with eight fractional digits: a price of `0.50` is stored as
//! `50_000_000`. Divisions truncate toward zero at that scale.

use vstd::prelude::*;

pub mod bet;
pub mod book;
pub mod cache;
pub mod clock;
pub mod depth;
pub mod ids;
pub mod market_maker;
pub mod matching;
pub mod order;
pub mod pagination;
pub mod portfolio;
pub mod position;
pub mod price_updater;
pub mod requests;
pub mod service;
pub mod settlement;
pub mod subscription;
pub mod text;
pub mod wallet;

verus! {

/// Number of fixed-point units in one whole currency unit (eight fractional digits).
pub const PRICE_SCALE: u64 = 100_000_000;

} // verus!
