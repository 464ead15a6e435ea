//! The manager's settings.

use vstd::prelude::*;
use crate::clock::SECOND;

verus! {

/// How the manager paces and bounds its requests. Durations are in
/// nanoseconds.
#[derive(Clone, Copy, Debug)]
pub struct Settings {
    /// The least gap between two attempts of a failing delivery.
    pub push_attempt_interval: u64,
    /// How many attempts a delivery gets before its changes are dropped.
    pub push_attempts_max: u32,
    /// How often pending subscriptions are looked at again.
    pub push_retry_interval: u64,
    /// The deadline of one request.
    pub push_timeout: u64,
    /// The window in which an account gets one verification request.
    pub push_verify_timeout: u64,
    /// The least gap between two requests to a healthy subscription.
    pub push_throttle: u64,
}

impl Settings {
    /// The settings used where nothing is configured: attempts a minute apart
    /// and three of them, a retry pass every second, ten seconds for a request,
    /// one verification a minute, one request a second.
    pub fn standard() -> (settings: Settings)
        ensures
            settings == (Settings {
                push_attempt_interval: 60_000_000_000,
                push_attempts_max: 3,
                push_retry_interval: 1_000_000_000,
                push_timeout: 10_000_000_000,
                push_verify_timeout: 60_000_000_000,
                push_throttle: 1_000_000_000,
            }),
    {
        Settings {
            push_attempt_interval: 60 * SECOND,
            push_attempts_max: 3,
            push_retry_interval: SECOND,
            push_timeout: 10 * SECOND,
            push_verify_timeout: 60 * SECOND,
            push_throttle: SECOND,
        }
    }
}

} // verus!
