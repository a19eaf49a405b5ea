//! The one place the crate reads the wall clock.

use vstd::prelude::*;
use std::time::SystemTime;
use std::time::UNIX_EPOCH;

verus! {

/// Relies on std's SystemTime::now.  Seconds since the Unix epoch; the
/// value depends on the machine's clock, so nothing is promised of it.
#[verifier::external_body]
pub fn now_secs() -> u64 {
    match SystemTime::now().duration_since(UNIX_EPOCH) {
        Ok(d) => d.as_secs(),
        Err(_) => 0,
    }
}

} // verus!
