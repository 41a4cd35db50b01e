//! The one clock read the ledger makes: records are stamped with the current
//! time in whole seconds.
use vstd::prelude::*;

verus! {

/// Relies on chrono::Utc::now: the current time in whole seconds since the
/// Unix epoch. Nothing is promised of the value.
#[verifier::external_body]
pub(crate) fn now_timestamp() -> i64 {
    chrono::Utc::now().timestamp()
}

} // verus!
