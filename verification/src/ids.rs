use vstd::prelude::*;

verus! {

/// Relies on `uuid::Uuid::new_v4`, which draws a fresh random version-4
/// identifier; the value is kept as its 128-bit integer form. The result is
/// random, so nothing is assumed about it.
#[verifier::external_body]
pub fn fresh_id() -> u128 {
    uuid::Uuid::new_v4().as_u128()
}

} // verus!
