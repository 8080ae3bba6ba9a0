//! The wall clock.

use vstd::prelude::*;

verus! {

/// `SystemTime::now`, as the seconds since the Unix epoch where it is not before that. Nothing is
/// promised of the result.
#[verifier::external_body]
fn since_epoch() -> (out: Option<u64>) {
    std::time::SystemTime::now()
        .duration_since(std::time::UNIX_EPOCH)
        .ok()
        .map(|d| d.as_secs())
}

/// A moment in seconds since the Unix epoch, where one that lies before it counts as the epoch.
pub fn seconds(since_epoch: Option<u64>) -> (out: u64)
    ensures
        out == (match since_epoch {
            Some(s) => s,
            None => 0,
        }),
{
    match since_epoch {
        Some(s) => s,
        None => 0,
    }
}

/// The present moment in seconds since the Unix epoch.
pub(crate) fn now() -> (out: u64) {
    seconds(since_epoch())
}

/// A moment before the epoch counts as the epoch, and any other as what it is.
pub proof fn law_moments(since: u64, out: u64, before: u64)
    requires
        call_ensures(seconds, (Some(since),), out),
        call_ensures(seconds, (None,), before),
    ensures
        out == since,
        before == 0,
{
}

} // verus!
