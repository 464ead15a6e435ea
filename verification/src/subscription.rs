//! A registered push endpoint and the state the manager keeps for it.

use vstd::prelude::*;
use crate::clock::{elapsed, elapsed_since, MILLISECOND};
use crate::settings::Settings;
use crate::state_change::{changes_view, StateChange, StateChangeView};

verus! {

/// The keys with which a subscriber wants its payloads encrypted.
#[derive(Debug)]
pub struct EncryptionKeys {
    pub p256dh: Vec<u8>,
    pub auth: Vec<u8>,
}

/// [`EncryptionKeys`] as a mathematical value.
pub struct KeysView {
    pub p256dh: Seq<u8>,
    pub auth: Seq<u8>,
}

impl View for EncryptionKeys {
    type V = KeysView;

    open spec fn view(&self) -> KeysView {
        KeysView { p256dh: self.p256dh@, auth: self.auth@ }
    }
}

/// The view of keys that may be absent.
pub open spec fn keys_view(keys: Option<EncryptionKeys>) -> Option<KeysView> {
    match keys {
        Some(k) => Some(k@),
        None => None,
    }
}

fn duplicate_bytes(bytes: &Vec<u8>) -> (copy: Vec<u8>)
    ensures
        copy@ == bytes@,
{
    let mut copy: Vec<u8> = Vec::new();
    let mut i: usize = 0;
    while i < bytes.len()
        invariant
            i <= bytes.len(),
            copy@ == bytes@.take(i as int),
        decreases bytes.len() - i,
    {
        copy.push(bytes[i]);
        proof {
            assert(bytes@.take(i + 1) =~= bytes@.take(i as int).push(bytes@[i as int]));
        }
        i += 1;
    }
    proof {
        assert(bytes@.take(bytes.len() as int) =~= bytes@);
    }
    copy
}

/// Copies keys that may be absent.
pub fn duplicate_keys(keys: &Option<EncryptionKeys>) -> (copy: Option<EncryptionKeys>)
    ensures
        keys_view(copy) == keys_view(*keys),
{
    match keys {
        Some(k) => Some(
            EncryptionKeys { p256dh: duplicate_bytes(&k.p256dh), auth: duplicate_bytes(&k.auth) },
        ),
        None => None,
    }
}

/// A push endpoint with its delivery state.
#[derive(Debug)]
pub struct Subscription {
    /// Where requests go.
    pub url: String,
    /// The subscriber's keys, if payloads are to be encrypted.
    pub keys: Option<EncryptionKeys>,
    /// Failed attempts in a row; zero when idle or after a success.
    pub num_attempts: u32,
    /// When the latest attempt started or was reported failed.
    pub last_request: i128,
    /// Changes waiting for the next request.
    pub state_changes: Vec<StateChange>,
    /// Whether a request is on its way.
    pub in_flight: bool,
}

/// A [`Subscription`] as a mathematical value.
pub struct SubscriptionView {
    pub url: Seq<char>,
    pub keys: Option<KeysView>,
    pub num_attempts: u32,
    pub last_request: int,
    pub state_changes: Seq<StateChangeView>,
    pub in_flight: bool,
}

impl View for Subscription {
    type V = SubscriptionView;

    open spec fn view(&self) -> SubscriptionView {
        SubscriptionView {
            url: self.url@,
            keys: keys_view(self.keys),
            num_attempts: self.num_attempts,
            last_request: self.last_request as int,
            state_changes: changes_view(self.state_changes@),
            in_flight: self.in_flight,
        }
    }
}

/// What a delivery task is given: where to post, with which keys, and the
/// changes it has to report.
pub struct DeliveryView {
    pub id: u64,
    pub url: Seq<char>,
    pub keys: Option<KeysView>,
    pub state_changes: Seq<StateChangeView>,
}

impl SubscriptionView {
    /// A subscription as registration creates it at `now`: idle, with nothing
    /// queued, and its latest request dated so far back that the first change
    /// can go out at once.
    pub open spec fn fresh(
        url: Seq<char>,
        keys: Option<KeysView>,
        settings: Settings,
        now: u64,
    ) -> SubscriptionView {
        SubscriptionView {
            url,
            keys,
            num_attempts: 0,
            last_request: now as int - (settings.push_throttle as int + MILLISECOND as int),
            state_changes: Seq::empty(),
            in_flight: false,
        }
    }

    /// The time since the latest request.
    pub open spec fn idle_for(self, now: u64) -> nat {
        elapsed(now as int, self.last_request)
    }

    /// Whether a change that has just been queued may be sent at once: nothing
    /// is in flight, and either the subscription is healthy and more than the
    /// throttle has passed, or it is in a retry chain that has attempts left
    /// and more than the attempt interval has passed.
    pub open spec fn sendable_on_push(self, settings: Settings, now: u64) -> bool {
        &&& !self.in_flight
        &&& ({
            ||| self.num_attempts == 0 && self.idle_for(now) > settings.push_throttle
            ||| 1 <= self.num_attempts < settings.push_attempts_max && self.idle_for(now)
                > settings.push_attempt_interval
        })
    }

    /// Whether the retry pass has to act on this subscription: nothing is in
    /// flight, and at least the throttle (healthy) or the attempt interval
    /// (retry chain) has passed.
    pub open spec fn due_on_retry(self, settings: Settings, now: u64) -> bool {
        &&& !self.in_flight
        &&& ({
            ||| self.num_attempts == 0 && self.idle_for(now) >= settings.push_throttle
            ||| self.num_attempts > 0 && self.idle_for(now) >= settings.push_attempt_interval
        })
    }

    /// The subscription with `change` added at the end of its queue.
    pub open spec fn queued(self, change: StateChangeView) -> SubscriptionView {
        SubscriptionView { state_changes: self.state_changes.push(change), ..self }
    }

    /// The subscription after a request has been started at `now`: the queue is
    /// handed over and empty.
    pub open spec fn sent(self, now: u64) -> SubscriptionView {
        SubscriptionView {
            state_changes: Seq::empty(),
            in_flight: true,
            last_request: now as int,
            ..self
        }
    }

    /// What the request started by [`Self::sent`] carries.
    pub open spec fn delivery(self, id: u64) -> DeliveryView {
        DeliveryView { id, url: self.url, keys: self.keys, state_changes: self.state_changes }
    }

    /// The subscription after its request was reported delivered.
    pub open spec fn succeeded(self) -> SubscriptionView {
        SubscriptionView { num_attempts: 0, in_flight: false, ..self }
    }

    /// The attempt count after one more failure.
    pub open spec fn attempts_after_failure(self) -> u32 {
        if self.num_attempts < u32::MAX {
            (self.num_attempts + 1) as u32
        } else {
            u32::MAX
        }
    }

    /// The subscription after its request was reported failed at `now`: the
    /// returned batch goes behind what was queued in the meantime.
    pub open spec fn failed(self, batch: Seq<StateChangeView>, now: u64) -> SubscriptionView {
        SubscriptionView {
            last_request: now as int,
            num_attempts: self.attempts_after_failure(),
            state_changes: self.state_changes + batch,
            in_flight: false,
            ..self
        }
    }

    /// The subscription after its retry chain was given up.
    pub open spec fn abandoned(self) -> SubscriptionView {
        SubscriptionView { state_changes: Seq::empty(), num_attempts: 0, ..self }
    }

    /// What the retry pass makes of a subscription that is due: a request while
    /// attempts are left, else the chain is given up.
    pub open spec fn retried(self, settings: Settings, now: u64) -> SubscriptionView {
        if self.num_attempts < settings.push_attempts_max {
            self.sent(now)
        } else {
            self.abandoned()
        }
    }
}

/// What a delivery task is given.
#[derive(Debug)]
pub struct Delivery {
    pub id: u64,
    pub url: String,
    pub keys: Option<EncryptionKeys>,
    pub state_changes: Vec<StateChange>,
}

impl View for Delivery {
    type V = DeliveryView;

    open spec fn view(&self) -> DeliveryView {
        DeliveryView {
            id: self.id,
            url: self.url@,
            keys: keys_view(self.keys),
            state_changes: changes_view(self.state_changes@),
        }
    }
}

/// The views of a sequence of deliveries, in the same order.
pub open spec fn deliveries_view(deliveries: Seq<Delivery>) -> Seq<DeliveryView> {
    deliveries.map_values(|d: Delivery| d@)
}

impl Subscription {
    /// Creates the subscription that registration stores.
    pub fn fresh(url: String, keys: Option<EncryptionKeys>, settings: &Settings, now: u64) -> (sub:
        Subscription)
        ensures
            sub@ == SubscriptionView::fresh(url@, keys_view(keys), *settings, now),
    {
        let sub = Subscription {
            url,
            keys,
            num_attempts: 0,
            last_request: now as i128 - (settings.push_throttle as i128 + MILLISECOND as i128),
            state_changes: Vec::new(),
            in_flight: false,
        };
        proof {
            assert(sub@.state_changes =~= Seq::empty());
        }
        sub
    }

    /// Decides [`SubscriptionView::sendable_on_push`].
    pub fn sendable_on_push(&self, settings: &Settings, now: u64) -> (yes: bool)
        ensures
            yes == self@.sendable_on_push(*settings, now),
    {
        let idle = elapsed_since(now, self.last_request);
        !self.in_flight && ((self.num_attempts == 0 && idle > settings.push_throttle as u128) || (1
            <= self.num_attempts && self.num_attempts < settings.push_attempts_max && idle
            > settings.push_attempt_interval as u128))
    }

    /// Decides [`SubscriptionView::due_on_retry`].
    pub fn due_on_retry(&self, settings: &Settings, now: u64) -> (yes: bool)
        ensures
            yes == self@.due_on_retry(*settings, now),
    {
        let idle = elapsed_since(now, self.last_request);
        !self.in_flight && ((self.num_attempts == 0 && idle >= settings.push_throttle as u128) || (
        self.num_attempts > 0 && idle >= settings.push_attempt_interval as u128))
    }

    /// Starts a request: hands the queued changes over, marks the subscription
    /// in flight and dates the request `now`.
    pub fn send(&mut self, id: u64, now: u64) -> (delivery: Delivery)
        ensures
            final(self)@ == old(self)@.sent(now),
            delivery@ == old(self)@.delivery(id),
    {
        let mut state_changes: Vec<StateChange> = Vec::new();
        std::mem::swap(&mut self.state_changes, &mut state_changes);
        self.in_flight = true;
        self.last_request = now as i128;
        proof {
            assert(self@.state_changes =~= Seq::empty());
        }
        Delivery { id, url: self.url.clone(), keys: duplicate_keys(&self.keys), state_changes }
    }

    /// Records that the request was delivered.
    pub fn record_success(&mut self)
        ensures
            final(self)@ == old(self)@.succeeded(),
    {
        self.num_attempts = 0;
        self.in_flight = false;
    }

    /// Records that the request failed at `now` and takes its changes back.
    pub fn record_failure(&mut self, batch: Vec<StateChange>, now: u64)
        ensures
            final(self)@ == old(self)@.failed(changes_view(batch@), now),
    {
        let mut batch = batch;
        self.last_request = now as i128;
        if self.num_attempts < u32::MAX {
            self.num_attempts = self.num_attempts + 1;
        }
        let ghost queued = self.state_changes@;
        let ghost returned = batch@;
        self.state_changes.append(&mut batch);
        self.in_flight = false;
        proof {
            assert(changes_view(queued + returned) =~= changes_view(queued) + changes_view(
                returned,
            ));
        }
    }

    /// Gives the retry chain up: drops what is queued and resets the count.
    pub fn abandon(&mut self)
        ensures
            final(self)@ == old(self)@.abandoned(),
    {
        self.state_changes.clear();
        self.num_attempts = 0;
        proof {
            assert(self@.state_changes =~= Seq::empty());
        }
    }

    /// Adds a change at the end of the queue.
    pub fn enqueue(&mut self, change: StateChange)
        ensures
            final(self)@ == old(self)@.queued(change@),
    {
        let ghost before = self.state_changes@;
        self.state_changes.push(change);
        proof {
            assert(changes_view(before.push(change)) =~= changes_view(before).push(change@));
        }
    }
}

} // verus!
