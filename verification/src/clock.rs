//! Time as the manager sees it: readings of a monotonic clock in nanoseconds.

use vstd::prelude::*;

verus! {

/// One millisecond, in nanoseconds.
pub const MILLISECOND: u64 = 1_000_000;

/// One second, in nanoseconds.
pub const SECOND: u64 = 1_000_000_000;

/// The timeout used while no retry is pending: one year, in nanoseconds.
pub const LONG_SLUMBER: u64 = 31_536_000_000_000_000;

/// The time that has passed at `now` since `since`; zero if `since` lies ahead.
pub open spec fn elapsed(now: int, since: int) -> nat {
    if now >= since {
        (now - since) as nat
    } else {
        0
    }
}

/// Computes [`elapsed`] for a clock reading and a stored instant.
pub fn elapsed_since(now: u64, since: i128) -> (e: u128)
    ensures
        e as nat == elapsed(now as int, since as int),
{
    if since < 0 {
        let back: i128 = -(since + 1);
        back as u128 + 1 + now as u128
    } else if now as i128 >= since {
        (now as i128 - since) as u128
    } else {
        0
    }
}

} // verus!
