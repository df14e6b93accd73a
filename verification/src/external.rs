//! Trusted wrappers around the identifier and clock crates the library uses.

use vstd::prelude::*;

verus! {

/// Relies on uuid::Uuid::new_v4 and its hyphenated Display form: a random
/// version-4 UUID always renders as 36 ASCII characters. The value itself
/// is random, so nothing more is promised about it.
#[verifier::external_body]
pub fn new_uuid_string() -> (r: String)
    ensures
        r@.len() == 36,
{
    uuid::Uuid::new_v4().to_string()
}

/// Relies on chrono's conversion from the system clock and on
/// DateTime::timestamp: the current wall-clock time as whole seconds since
/// the Unix epoch. The conversion handles clocks before the epoch; the value
/// depends on the clock, so only chrono's representable datetime range
/// (within about 262000 years of the epoch) is promised about it.
#[verifier::external_body]
pub fn now_unix_seconds() -> (r: i64)
    ensures
        -8_400_000_000_000 <= r <= 8_400_000_000_000,
{
    chrono::DateTime::<chrono::Utc>::from(std::time::SystemTime::now()).timestamp()
}

} // verus!
