use vstd::prelude::*;

verus! {

/// Relies on `chrono::Utc::now`, which reads the current wall-clock time;
/// the value is kept as milliseconds since the Unix epoch. The result depends
/// on the machine's clock, so nothing is assumed about it.
#[verifier::external_body]
pub fn now_millis() -> i64 {
    chrono::Utc::now().timestamp_millis()
}

} // verus!
