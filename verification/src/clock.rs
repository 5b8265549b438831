//! Monotonic time as plain milliseconds: the app samples its clock and
//! hands the library readings; elapsed time saturates at zero like
//! `Instant::duration_since`.
use vstd::prelude::*;

verus! {

/// Milliseconds elapsed from `since` to `now` (zero if `now` is earlier).
pub open spec fn elapsed(since: u64, now: u64) -> int {
    if now >= since {
        now - since
    } else {
        0
    }
}

/// True when at least `secs` seconds passed from `since` to `now`.
pub open spec fn at_least(since: u64, now: u64, secs: u64) -> bool {
    elapsed(since, now) >= secs * 1000
}

/// Executable form of [`at_least`].
pub fn aged(since: u64, now: u64, secs: u64) -> (r: bool)
    ensures
        r == at_least(since, now, secs),
{
    let e: u64 = if now >= since {
        now - since
    } else {
        0
    };
    (e as u128) >= (secs as u128) * 1000
}

} // verus!
