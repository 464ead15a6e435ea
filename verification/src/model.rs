//! The manager as a mathematical state machine: its state, and what each
//! event and each retry pass makes of it.

use vstd::prelude::*;
use crate::clock::{elapsed, LONG_SLUMBER};
use crate::event::{ActionView, EventView, PushUpdateView, VerificationView};
use crate::settings::Settings;
use crate::state_change::StateChangeView;
use crate::subscription::{DeliveryView, KeysView, SubscriptionView};

verus! {

/// The manager's state.
pub struct ManagerView {
    pub settings: Settings,
    /// The registered subscriptions, by id.
    pub subscriptions: Map<u64, SubscriptionView>,
    /// For each account, when a verification request was last issued.
    pub last_verify: Map<u32, u64>,
    /// The subscriptions that wait for the retry pass.
    pub retry_ids: Set<u64>,
    /// When a retry pass last left subscriptions waiting.
    pub last_retry: u64,
}

/// A state together with the requests that reaching it has issued, oldest
/// first.
pub struct Outcome {
    pub state: ManagerView,
    pub actions: Seq<ActionView>,
}

impl Outcome {
    /// The outcome of going on from `self.state` to `next`.
    pub open spec fn and_then(self, next: Outcome) -> Outcome {
        Outcome { state: next.state, actions: self.actions + next.actions }
    }
}

impl ManagerView {
    /// The state of a manager started at `now`.
    pub open spec fn initial(settings: Settings, now: u64) -> ManagerView {
        ManagerView {
            settings,
            subscriptions: Map::empty(),
            last_verify: Map::empty(),
            retry_ids: Set::empty(),
            last_retry: now,
        }
    }

    /// The outcome that leaves the state as it is and issues nothing.
    pub open spec fn quiet(self) -> Outcome {
        Outcome { state: self, actions: Seq::empty() }
    }

    /// Whether `account_id` may get a verification request at `now`: it had
    /// none so far, or the latest is more than the verification window back.
    pub open spec fn may_verify(self, account_id: u32, now: u64) -> bool {
        self.last_verify.contains_key(account_id) ==> elapsed(
            now as int,
            self.last_verify[account_id] as int,
        ) > self.settings.push_verify_timeout
    }

    /// A verification is asked for: it is issued and noted if the account may
    /// get one, and dropped otherwise.
    pub open spec fn verify(self, request: VerificationView, now: u64) -> Outcome {
        if self.may_verify(request.account_id, now) {
            Outcome {
                state: ManagerView {
                    last_verify: self.last_verify.insert(request.account_id, now),
                    ..self
                },
                actions: seq![ActionView::Verify(request)],
            }
        } else {
            self.quiet()
        }
    }

    /// A subscription is registered: stored fresh if the id is new, ignored if
    /// the id is known.
    pub open spec fn register(
        self,
        id: u64,
        url: Seq<char>,
        keys: Option<KeysView>,
        now: u64,
    ) -> ManagerView {
        if self.subscriptions.contains_key(id) {
            self
        } else {
            ManagerView {
                subscriptions: self.subscriptions.insert(
                    id,
                    SubscriptionView::fresh(url, keys, self.settings, now),
                ),
                ..self
            }
        }
    }

    /// A subscription is removed.
    pub open spec fn unregister(self, id: u64) -> ManagerView {
        ManagerView { subscriptions: self.subscriptions.remove(id), ..self }
    }

    /// One update is applied.
    pub open spec fn apply_update(self, update: PushUpdateView, now: u64) -> Outcome {
        match update {
            PushUpdateView::Verify { id, account_id, url, code, keys } => self.verify(
                VerificationView { id, account_id, url, code, keys },
                now,
            ),
            PushUpdateView::Register { id, url, keys } => self.register(id, url, keys, now).quiet(),
            PushUpdateView::Unregister { id } => self.unregister(id).quiet(),
        }
    }

    /// The updates are applied one after the other.
    pub open spec fn apply_updates(self, updates: Seq<PushUpdateView>, now: u64) -> Outcome
        decreases updates.len(),
    {
        if updates.len() == 0 {
            self.quiet()
        } else {
            let so_far = self.apply_updates(updates.drop_last(), now);
            so_far.and_then(so_far.state.apply_update(updates.last(), now))
        }
    }

    /// A change arrives for subscription `id`. An unknown id is skipped.
    /// Otherwise the change is queued; if the subscription may send at once,
    /// the whole queue goes out and the id leaves the pending set, else the id
    /// joins the pending set.
    pub open spec fn ingest(self, id: u64, change: StateChangeView, now: u64) -> Outcome {
        if !self.subscriptions.contains_key(id) {
            self.quiet()
        } else {
            let queued = self.subscriptions[id].queued(change);
            if queued.sendable_on_push(self.settings, now) {
                Outcome {
                    state: ManagerView {
                        subscriptions: self.subscriptions.insert(id, queued.sent(now)),
                        retry_ids: self.retry_ids.remove(id),
                        ..self
                    },
                    actions: seq![ActionView::Deliver(queued.delivery(id))],
                }
            } else {
                ManagerView {
                    subscriptions: self.subscriptions.insert(id, queued),
                    retry_ids: self.retry_ids.insert(id),
                    ..self
                }.quiet()
            }
        }
    }

    /// A change arrives for the subscriptions `ids`, taken one after the other.
    pub open spec fn ingest_all(self, ids: Seq<u64>, change: StateChangeView, now: u64) -> Outcome
        decreases ids.len(),
    {
        if ids.len() == 0 {
            self.quiet()
        } else {
            let so_far = self.ingest_all(ids.drop_last(), change, now);
            so_far.and_then(so_far.state.ingest(ids.last(), change, now))
        }
    }

    /// Every subscription is forgotten. The pending set and the verification
    /// times stay.
    pub open spec fn reset(self) -> ManagerView {
        ManagerView { subscriptions: Map::empty(), ..self }
    }

    /// The request of subscription `id` went through. An unknown id is
    /// ignored.
    pub open spec fn delivery_succeeded(self, id: u64) -> ManagerView {
        if self.subscriptions.contains_key(id) {
            ManagerView {
                subscriptions: self.subscriptions.insert(id, self.subscriptions[id].succeeded()),
                retry_ids: self.retry_ids.remove(id),
                ..self
            }
        } else {
            self
        }
    }

    /// The request of subscription `id` failed at `now`. An unknown id is
    /// ignored.
    pub open spec fn delivery_failed(
        self,
        id: u64,
        batch: Seq<StateChangeView>,
        now: u64,
    ) -> ManagerView {
        if self.subscriptions.contains_key(id) {
            ManagerView {
                subscriptions: self.subscriptions.insert(
                    id,
                    self.subscriptions[id].failed(batch, now),
                ),
                retry_ids: self.retry_ids.insert(id),
                ..self
            }
        } else {
            self
        }
    }

    /// What one event makes of the state, and the requests it issues.
    pub open spec fn handle(self, event: EventView, now: u64) -> Outcome {
        match event {
            EventView::Update { updates } => self.apply_updates(updates, now),
            EventView::Push { ids, state_change } => self.ingest_all(ids, state_change, now),
            EventView::Reset => self.reset().quiet(),
            EventView::DeliverySuccess { id } => self.delivery_succeeded(id).quiet(),
            EventView::DeliveryFailure { id, state_changes } => self.delivery_failed(
                id,
                state_changes,
                now,
            ).quiet(),
        }
    }

    /// What the arrival of `event`, or the timeout if there is none, makes of
    /// the state.
    pub open spec fn after_event(self, event: Option<EventView>, now: u64) -> Outcome {
        match event {
            Some(e) => self.handle(e, now),
            None => self.quiet(),
        }
    }

    /// Whether a retry pass takes place at `now`: subscriptions are pending and
    /// the latest pass is at least the retry interval back.
    pub open spec fn pass_due(self, now: u64) -> bool {
        &&& !self.retry_ids.is_empty()
        &&& elapsed(now as int, self.last_retry as int) >= self.settings.push_retry_interval
    }

    /// Whether the retry pass acts on subscription `id`: it is pending, known
    /// and due.
    pub open spec fn retries(self, id: u64, now: u64) -> bool {
        &&& self.retry_ids.contains(id)
        &&& self.subscriptions.contains_key(id)
        &&& self.subscriptions[id].due_on_retry(self.settings, now)
    }

    /// Whether the retry pass starts a request for subscription `id`.
    pub open spec fn retry_sends(self, id: u64, now: u64) -> bool {
        &&& self.retries(id, now)
        &&& self.subscriptions[id].num_attempts < self.settings.push_attempts_max
    }

    /// Whether the retry pass gives subscription `id` up.
    pub open spec fn retry_abandons(self, id: u64, now: u64) -> bool {
        &&& self.retries(id, now)
        &&& self.subscriptions[id].num_attempts >= self.settings.push_attempts_max
    }

    /// Whether a pending id stays pending after the retry pass: it is known and
    /// not yet due.
    pub open spec fn stays_pending(self, id: u64, now: u64) -> bool {
        &&& self.retry_ids.contains(id)
        &&& self.subscriptions.contains_key(id)
        &&& !self.subscriptions[id].due_on_retry(self.settings, now)
    }

    /// The subscriptions after a retry pass at `now`.
    pub open spec fn retried_subscriptions(self, now: u64) -> Map<u64, SubscriptionView> {
        Map::new(
            |id: u64| self.subscriptions.contains_key(id),
            |id: u64|
                if self.retries(id, now) {
                    self.subscriptions[id].retried(self.settings, now)
                } else {
                    self.subscriptions[id]
                },
        )
    }

    /// The ids that a retry pass at `now` leaves pending.
    pub open spec fn left_pending(self, now: u64) -> Set<u64> {
        Set::new(|id: u64| self.stays_pending(id, now))
    }

    /// The state after the retry scheduler has run at `now`. Nothing changes
    /// unless a pass is due. A pass sends or gives up what is due, forgets
    /// pending ids that are unknown, and notes its time if any id stays
    /// pending.
    pub open spec fn after_retry(self, now: u64) -> ManagerView {
        if self.pass_due(now) {
            ManagerView {
                subscriptions: self.retried_subscriptions(now),
                retry_ids: self.left_pending(now),
                last_retry: if self.left_pending(now).is_empty() {
                    self.last_retry
                } else {
                    now
                },
                ..self
            }
        } else {
            self
        }
    }

    /// How long the manager may wait for the next event after the retry
    /// scheduler has run at `now`.
    pub open spec fn retry_timeout(self, now: u64) -> u64 {
        if self.retry_ids.is_empty() {
            LONG_SLUMBER
        } else if !self.pass_due(now) {
            (self.settings.push_retry_interval - elapsed(now as int, self.last_retry as int)) as u64
        } else if self.left_pending(now).is_empty() {
            LONG_SLUMBER
        } else {
            self.settings.push_retry_interval
        }
    }

    /// Whether `deliveries` are the requests that the retry scheduler starts at
    /// `now`: one for each subscription that a due pass sends for, carrying
    /// what that subscription had queued, and no other. Their order is left
    /// open.
    pub open spec fn issued_by_retry(self, now: u64, deliveries: Seq<DeliveryView>) -> bool {
        &&& forall|i: int|
            0 <= i < deliveries.len() ==> {
                &&& self.pass_due(now)
                &&& self.retry_sends(#[trigger] deliveries[i].id, now)
                &&& deliveries[i] == self.subscriptions[deliveries[i].id].delivery(deliveries[i].id)
            }
        &&& forall|i: int, j: int|
            0 <= i < j < deliveries.len() ==> #[trigger] deliveries[i].id
                != #[trigger] deliveries[j].id
        &&& forall|id: u64|
            self.pass_due(now) && #[trigger] self.retry_sends(id, now) ==> exists|i: int|
                0 <= i < deliveries.len() && #[trigger] deliveries[i].id == id
    }
}

} // verus!
