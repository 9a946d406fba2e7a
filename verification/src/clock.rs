//! Wall-clock time.

use vstd::prelude::*;

verus! {

/// `std::time::SystemTime::now`, as milliseconds since the Unix epoch; nothing if
/// the clock stands before it.
#[verifier::external_body]
fn epoch_millis() -> (r: Option<u128>)
{
    std::time::SystemTime::now()
        .duration_since(std::time::UNIX_EPOCH)
        .ok()
        .map(|d: std::time::Duration| d.as_millis())
}

/// A clock reading as signed milliseconds; a clock before the epoch reads zero.
pub fn signed_millis(reading: Option<u128>) -> (r: i64)
    ensures
        r == match reading {
            Some(ms) => ms as i64,
            None => 0,
        },
{
    match reading {
        Some(ms) => #[verifier::truncate]
        (ms as i64),
        None => 0,
    }
}

/// Wall-clock epoch milliseconds. Used for `leased_until` and `completed_at`.
pub fn now_ms() -> (r: i64)
{
    signed_millis(epoch_millis())
}

} // verus!
