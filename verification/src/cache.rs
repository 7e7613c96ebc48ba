//! Cache key construction shared by the adapters that keep materialized
//! projections.

use vstd::prelude::*;
use vstd::string::StringExecFns;

verus! {

pub const USER_PREFIX: &'static str = "user";

pub const SESSION_PREFIX: &'static str = "session";

pub const EVENT_PREFIX: &'static str = "event";

pub const BET_PREFIX: &'static str = "bet";

pub const TRANSACTION_PREFIX: &'static str = "transaction";

/// A cache key of the form `prefix:identifier`.
pub fn create_cache_key(prefix: &str, identifier: &str) -> (r: String)
    ensures
        r@ == prefix@ + ":"@ + identifier@,
{
    let mut s = prefix.to_owned();
    s.append(":");
    s.append(identifier);
    s
}

} // verus!
