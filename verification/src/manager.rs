//! The push delivery manager: the state machine of [`crate::model`], kept in
//! hash tables.

use vstd::prelude::*;
use ahash::{AHashMap, AHashSet};
use crate::clock::{elapsed_since, LONG_SLUMBER};
use crate::event::{actions_view, Action, ActionView, Event, PushUpdate, Verification};
use crate::model::{ManagerView, Outcome};
use crate::settings::Settings;
use crate::state_change::StateChange;
use crate::subscription::{
    deliveries_view,
    Delivery,
    DeliveryView,
    EncryptionKeys,
    Subscription,
    SubscriptionView,
};
use crate::tables::{
    add_pending,
    clear_pending,
    clear_subscriptions,
    drop_pending,
    drop_subscription,
    new_pending,
    new_subscriptions,
    new_verifications,
    no_pending,
    pending_entries,
    pending_list,
    put_subscription,
    put_verification,
    subscription_at,
    subscription_at_mut,
    subscription_entries,
    verification_at,
    verification_entries,
};

verus! {

/// The views of the subscriptions a table holds.
pub open spec fn subscriptions_view(entries: Map<u64, Subscription>) -> Map<u64, SubscriptionView> {
    entries.map_values(|s: Subscription| s@)
}

proof fn lemma_view_of_insert(entries: Map<u64, Subscription>, id: u64, sub: Subscription)
    ensures
        subscriptions_view(entries.insert(id, sub)) == subscriptions_view(entries).insert(id, sub@),
{
    assert(subscriptions_view(entries.insert(id, sub)) =~= subscriptions_view(entries).insert(
        id,
        sub@,
    ));
}

proof fn lemma_view_of_remove(entries: Map<u64, Subscription>, id: u64)
    ensures
        subscriptions_view(entries.remove(id)) == subscriptions_view(entries).remove(id),
{
    assert(subscriptions_view(entries.remove(id)) =~= subscriptions_view(entries).remove(id));
}

proof fn lemma_view_of_empty()
    ensures
        subscriptions_view(Map::empty()) == Map::<u64, SubscriptionView>::empty(),
{
    assert(subscriptions_view(Map::empty()) =~= Map::<u64, SubscriptionView>::empty());
}

/// The push delivery manager.
pub struct Manager {
    settings: Settings,
    subscriptions: AHashMap<u64, Subscription>,
    last_verify: AHashMap<u32, u64>,
    retry_ids: AHashSet<u64>,
    last_retry: u64,
}

impl View for Manager {
    type V = ManagerView;

    closed spec fn view(&self) -> ManagerView {
        ManagerView {
            settings: self.settings,
            subscriptions: subscriptions_view(subscription_entries(self.subscriptions)),
            last_verify: verification_entries(self.last_verify),
            retry_ids: pending_entries(self.retry_ids),
            last_retry: self.last_retry,
        }
    }
}

impl Manager {
    /// A manager without subscriptions, started at `now`.
    pub fn new(settings: Settings, now: u64) -> (manager: Manager)
        ensures
            manager@ == ManagerView::initial(settings, now),
    {
        proof {
            lemma_view_of_empty();
        }
        Manager {
            settings,
            subscriptions: new_subscriptions(),
            last_verify: new_verifications(),
            retry_ids: new_pending(),
            last_retry: now,
        }
    }

    /// The settings the manager was made with.
    pub fn settings(&self) -> (settings: Settings)
        ensures
            settings == self@.settings,
    {
        self.settings
    }

    /// The subscription registered under `id`, if there is one.
    pub fn subscription(&self, id: u64) -> (found: Option<&Subscription>)
        ensures
            match found {
                Some(sub) => self@.subscriptions.contains_key(id) && sub@
                    == self@.subscriptions[id],
                None => !self@.subscriptions.contains_key(id),
            },
    {
        subscription_at(&self.subscriptions, id)
    }

    /// When a verification request was last issued for `account_id`.
    pub fn last_verified(&self, account_id: u32) -> (found: Option<u64>)
        ensures
            found == (if self@.last_verify.contains_key(account_id) {
                Some(self@.last_verify[account_id])
            } else {
                None
            }),
    {
        verification_at(&self.last_verify, account_id)
    }

    /// When a retry pass last left subscriptions waiting.
    pub fn last_retry(&self) -> (at: u64)
        ensures
            at == self@.last_retry,
    {
        self.last_retry
    }

    /// The ids that wait for the retry pass, each once, in no fixed order.
    pub fn pending_retries(&self) -> (ids: Vec<u64>)
        ensures
            ids@.no_duplicates(),
            ids@.to_set() == self@.retry_ids,
    {
        pending_list(&self.retry_ids)
    }

    /// Handles a request for verification.
    fn verify(&mut self, request: Verification, now: u64) -> (issued: Option<Action>)
        ensures
            final(self)@ == old(self)@.verify(request@, now).state,
            match issued {
                Some(action) => old(self)@.verify(request@, now).actions == seq![action@],
                None => old(self)@.verify(request@, now).actions == Seq::<ActionView>::empty(),
            },
    {
        let allowed = match verification_at(&self.last_verify, request.account_id) {
            Some(at) => elapsed_since(now, at as i128) > self.settings.push_verify_timeout as u128,
            None => true,
        };
        if allowed {
            put_verification(&mut self.last_verify, request.account_id, now);
            Some(Action::Verify(request))
        } else {
            None
        }
    }

    /// Registers a subscription unless the id is taken.
    fn register(&mut self, id: u64, url: String, keys: Option<EncryptionKeys>, now: u64)
        ensures
            final(self)@ == old(self)@.register(id, url@, crate::subscription::keys_view(keys), now),
    {
        if subscription_at(&self.subscriptions, id).is_none() {
            let sub = Subscription::fresh(url, keys, &self.settings, now);
            proof {
                lemma_view_of_insert(subscription_entries(self.subscriptions), id, sub);
            }
            put_subscription(&mut self.subscriptions, id, sub);
        }
    }

    /// Removes a subscription.
    fn unregister(&mut self, id: u64)
        ensures
            final(self)@ == old(self)@.unregister(id),
    {
        proof {
            lemma_view_of_remove(subscription_entries(self.subscriptions), id);
        }
        drop_subscription(&mut self.subscriptions, id);
    }

    /// Applies one update.
    fn apply_update(&mut self, update: PushUpdate, now: u64) -> (issued: Option<Action>)
        ensures
            final(self)@ == old(self)@.apply_update(update@, now).state,
            match issued {
                Some(action) => old(self)@.apply_update(update@, now).actions == seq![action@],
                None => old(self)@.apply_update(update@, now).actions == Seq::<ActionView>::empty(),
            },
    {
        match update {
            PushUpdate::Verify { id, account_id, url, code, keys } => self.verify(
                Verification { id, account_id, url, code, keys },
                now,
            ),
            PushUpdate::Register { id, url, keys } => {
                self.register(id, url, keys, now);
                None
            },
            PushUpdate::Unregister { id } => {
                self.unregister(id);
                None
            },
        }
    }

    /// Takes in a change for one subscription.
    fn ingest(&mut self, id: u64, change: StateChange, now: u64) -> (issued: Option<Action>)
        ensures
            final(self)@ == old(self)@.ingest(id, change@, now).state,
            match issued {
                Some(action) => old(self)@.ingest(id, change@, now).actions == seq![action@],
                None => old(self)@.ingest(id, change@, now).actions == Seq::<ActionView>::empty(),
            },
    {
        let ghost entries = subscription_entries(self.subscriptions);
        match subscription_at_mut(&mut self.subscriptions, id) {
            Some(sub) => {
                sub.enqueue(change);
                if sub.sendable_on_push(&self.settings, now) {
                    let delivery = sub.send(id, now);
                    proof {
                        lemma_view_of_insert(entries, id, *sub);
                    }
                    drop_pending(&mut self.retry_ids, id);
                    Some(Action::Deliver(delivery))
                } else {
                    proof {
                        lemma_view_of_insert(entries, id, *sub);
                    }
                    add_pending(&mut self.retry_ids, id);
                    None
                }
            },
            None => None,
        }
    }

    /// Records that the request of subscription `id` went through.
    fn delivery_succeeded(&mut self, id: u64)
        ensures
            final(self)@ == old(self)@.delivery_succeeded(id),
    {
        let ghost entries = subscription_entries(self.subscriptions);
        match subscription_at_mut(&mut self.subscriptions, id) {
            Some(sub) => {
                sub.record_success();
                proof {
                    lemma_view_of_insert(entries, id, *sub);
                }
                drop_pending(&mut self.retry_ids, id);
            },
            None => {},
        }
    }

    /// Records that the request of subscription `id` failed at `now`.
    fn delivery_failed(&mut self, id: u64, batch: Vec<StateChange>, now: u64)
        ensures
            final(self)@ == old(self)@.delivery_failed(
                id,
                crate::state_change::changes_view(batch@),
                now,
            ),
    {
        let ghost entries = subscription_entries(self.subscriptions);
        match subscription_at_mut(&mut self.subscriptions, id) {
            Some(sub) => {
                sub.record_failure(batch, now);
                proof {
                    lemma_view_of_insert(entries, id, *sub);
                }
                add_pending(&mut self.retry_ids, id);
            },
            None => {},
        }
    }

    /// Forgets every subscription.
    fn reset(&mut self)
        ensures
            final(self)@ == old(self)@.reset(),
    {
        proof {
            lemma_view_of_empty();
        }
        clear_subscriptions(&mut self.subscriptions);
    }

    /// Applies the updates one after the other.
    fn apply_updates(&mut self, updates: Vec<PushUpdate>, now: u64) -> (actions: Vec<Action>)
        ensures
            final(self)@ == old(self)@.apply_updates(crate::event::updates_view(updates@), now).state,
            actions_view(actions@) == old(self)@.apply_updates(
                crate::event::updates_view(updates@),
                now,
            ).actions,
    {
        let ghost start = self@;
        let ghost all = crate::event::updates_view(updates@);
        let mut actions: Vec<Action> = Vec::new();
        proof {
            assert(actions_view(actions@) =~= Seq::<ActionView>::empty());
            assert(all.take(0) =~= Seq::<crate::event::PushUpdateView>::empty());
        }
        for update in iter: updates.into_iter()
            invariant
                iter.seq() == updates@,
                all == crate::event::updates_view(updates@),
                self@ == start.apply_updates(all.take(iter.index() as int), now).state,
                actions_view(actions@) == start.apply_updates(
                    all.take(iter.index() as int),
                    now,
                ).actions,
        {
            let ghost k = iter.index() as int;
            let ghost before = actions@;
            let ghost so_far = start.apply_updates(all.take(k), now);
            proof {
                assert(all.take(k + 1).drop_last() =~= all.take(k));
                assert(all.take(k + 1).last() == update@);
            }
            match self.apply_update(update, now) {
                Some(action) => {
                    actions.push(action);
                    proof {
                        assert(actions_view(before.push(action)) =~= actions_view(before).push(
                            action@,
                        ));
                        assert(actions_view(before).push(action@) =~= so_far.actions + seq![
                            action@,
                        ]);
                    }
                },
                None => {
                    proof {
                        assert(so_far.actions + Seq::<ActionView>::empty() =~= so_far.actions);
                    }
                },
            }
        }
        proof {
            assert(all.take(all.len() as int) =~= all);
        }
        actions
    }

    /// Takes in a change for each of the subscriptions `ids`, in their order.
    fn ingest_all(&mut self, ids: Vec<u64>, change: StateChange, now: u64) -> (actions: Vec<
        Action,
    >)
        ensures
            final(self)@ == old(self)@.ingest_all(ids@, change@, now).state,
            actions_view(actions@) == old(self)@.ingest_all(ids@, change@, now).actions,
    {
        let ghost start = self@;
        let mut actions: Vec<Action> = Vec::new();
        let mut i: usize = 0;
        proof {
            assert(actions_view(actions@) =~= Seq::<ActionView>::empty());
            assert(ids@.take(0) =~= Seq::<u64>::empty());
        }
        while i < ids.len()
            invariant
                i <= ids.len(),
                self@ == start.ingest_all(ids@.take(i as int), change@, now).state,
                actions_view(actions@) == start.ingest_all(ids@.take(i as int), change@, now).actions,
            decreases ids.len() - i,
        {
            let ghost before = actions@;
            let ghost so_far = start.ingest_all(ids@.take(i as int), change@, now);
            proof {
                assert(ids@.take(i + 1).drop_last() =~= ids@.take(i as int));
                assert(ids@.take(i + 1).last() == ids@[i as int]);
            }
            match self.ingest(ids[i], change.duplicate(), now) {
                Some(action) => {
                    actions.push(action);
                    proof {
                        assert(actions_view(before.push(action)) =~= actions_view(before).push(
                            action@,
                        ));
                        assert(actions_view(before).push(action@) =~= so_far.actions + seq![
                            action@,
                        ]);
                    }
                },
                None => {
                    proof {
                        assert(so_far.actions + Seq::<ActionView>::empty() =~= so_far.actions);
                    }
                },
            }
            i += 1;
        }
        proof {
            assert(ids@.take(ids.len() as int) =~= ids@);
        }
        actions
    }

    /// Handles one event at `now` and returns the requests that the caller has
    /// to post, oldest first.
    pub fn handle_event(&mut self, event: Event, now: u64) -> (actions: Vec<Action>)
        ensures
            final(self)@ == old(self)@.handle(event@, now).state,
            actions_view(actions@) == old(self)@.handle(event@, now).actions,
    {
        match event {
            Event::Update { updates } => self.apply_updates(updates, now),
            Event::Push { ids, state_change } => self.ingest_all(ids, state_change, now),
            Event::Reset => {
                self.reset();
                let actions: Vec<Action> = Vec::new();
                proof {
                    assert(actions_view(actions@) =~= Seq::<ActionView>::empty());
                }
                actions
            },
            Event::DeliverySuccess { id } => {
                self.delivery_succeeded(id);
                let actions: Vec<Action> = Vec::new();
                proof {
                    assert(actions_view(actions@) =~= Seq::<ActionView>::empty());
                }
                actions
            },
            Event::DeliveryFailure { id, state_changes } => {
                self.delivery_failed(id, state_changes, now);
                let actions: Vec<Action> = Vec::new();
                proof {
                    assert(actions_view(actions@) =~= Seq::<ActionView>::empty());
                }
                actions
            },
        }
    }

    /// Walks the pending ids of a due pass: sends for or gives up each
    /// subscription that is due, and lists the ids that leave the pending set.
    fn retry_walk(&mut self, ids: &Vec<u64>, now: u64) -> (walked: (Vec<Delivery>, Vec<u64>))
        requires
            ids@.no_duplicates(),
            ids@.to_set() == old(self)@.retry_ids,
            old(self)@.pass_due(now),
        ensures
            final(self)@ == (ManagerView {
                subscriptions: old(self)@.retried_subscriptions(now),
                ..old(self)@
            }),
            old(self)@.issued_by_retry(now, deliveries_view(walked.0@)),
            forall|id: u64|
                walked.1@.contains(id) <==> old(self)@.retry_ids.contains(id) && !old(
                    self,
                )@.stays_pending(id, now),
            walked.1@.len() <= ids@.len(),
            walked.1@.len() == ids@.len() <==> old(self)@.left_pending(now).is_empty(),
    {
        let ghost start = self@;
        let mut deliveries: Vec<Delivery> = Vec::new();
        let mut remove_ids: Vec<u64> = Vec::new();
        let mut i: usize = 0;
        proof {
            assert(self@.subscriptions =~= walked_subscriptions(start, ids@.take(0), now));
        }
        while i < ids.len()
            invariant
                i <= ids.len(),
                ids@.no_duplicates(),
                ids@.to_set() == start.retry_ids,
                start.pass_due(now),
                self@ == (ManagerView {
                    subscriptions: walked_subscriptions(start, ids@.take(i as int), now),
                    ..start
                }),
                walked_deliveries(start, ids@.take(i as int), now, deliveries_view(deliveries@)),
                forall|id: u64|
                    remove_ids@.contains(id) <==> ids@.take(i as int).contains(id)
                        && !start.stays_pending(id, now),
                remove_ids@.len() <= i,
                remove_ids@.len() == i <==> forall|j: int|
                    0 <= j < i ==> !start.stays_pending(#[trigger] ids@[j], now),
            decreases ids.len() - i,
        {
            let id = ids[i];
            let ghost done = ids@.take(i as int);
            let ghost entries = subscription_entries(self.subscriptions);
            let ghost sent_before = deliveries@;
            let ghost removed_before = remove_ids@;
            proof {
                assert(ids@.take(i + 1) =~= done.push(id));
                assert(!done.contains(id));
                assert(start.retry_ids.contains(id)) by {
                    assert(ids@.to_set().contains(ids@[i as int]));
                }
                assert(subscriptions_view(entries) == walked_subscriptions(start, done, now));
                assert(entries.contains_key(id) == start.subscriptions.contains_key(id)) by {
                    assert(subscriptions_view(entries).contains_key(id) == entries.contains_key(
                        id,
                    ));
                }
                if entries.contains_key(id) {
                    assert(subscriptions_view(entries)[id] == entries[id]@);
                    assert(walked_subscriptions(start, done, now)[id] == start.subscriptions[id]);
                    assert(entries[id]@ == start.subscriptions[id]);
                }
            }
            match subscription_at_mut(&mut self.subscriptions, id) {
                Some(sub) => {
                    if sub.due_on_retry(&self.settings, now) {
                        if sub.num_attempts < self.settings.push_attempts_max {
                            let delivery = sub.send(id, now);
                            deliveries.push(delivery);
                            proof {
                                assert(deliveries_view(deliveries@) =~= deliveries_view(
                                    sent_before,
                                ).push(delivery@));
                            }
                        } else {
                            sub.abandon();
                        }
                        remove_ids.push(id);
                        proof {
                            lemma_view_of_insert(entries, id, *sub);
                            assert(remove_ids@ == removed_before.push(id));
                        }
                    } else {
                        proof {
                            assert(*sub == entries[id]);
                            assert(entries.insert(id, *sub) =~= entries);
                        }
                    }
                },
                None => {
                    remove_ids.push(id);
                    proof {
                        assert(remove_ids@ == removed_before.push(id));
                    }
                },
            }
            proof {
                lemma_push_contains(done, id);
                if remove_ids@ == removed_before.push(id) {
                    lemma_push_contains(removed_before, id);
                }
                assert(remove_ids@ == removed_before.push(id) || (remove_ids@ == removed_before
                    && start.stays_pending(id, now)));
                assert(self@.subscriptions =~= walked_subscriptions(start, done.push(id), now));
                assert forall|other: u64|
                    remove_ids@.contains(other) <==> done.push(id).contains(other)
                        && !start.stays_pending(other, now) by {
                }
                assert(remove_ids@.len() == i + 1 <==> forall|j: int|
                    0 <= j < i + 1 ==> !start.stays_pending(#[trigger] ids@[j], now)) by {
                    if remove_ids@.len() == i + 1 {
                        assert(removed_before.len() == i);
                    } else {
                        if removed_before.len() == i {
                            assert(start.stays_pending(ids@[i as int], now));
                        }
                    }
                }
                lemma_walked_deliveries_step(
                    start,
                    done,
                    id,
                    now,
                    deliveries_view(sent_before),
                    deliveries_view(deliveries@),
                );
            }
            i += 1;
        }
        proof {
            assert(ids@.take(ids.len() as int) =~= ids@);
            assert forall|id: u64| ids@.contains(id) == start.retry_ids.contains(id) by {
                assert(ids@.to_set().contains(id) == ids@.contains(id));
            }
            assert(self@.subscriptions =~= start.retried_subscriptions(now));
            assert(remove_ids@.len() == ids@.len() <==> start.left_pending(now).is_empty()) by {
                if start.left_pending(now).is_empty() {
                    assert forall|j: int| 0 <= j < ids@.len() implies !start.stays_pending(
                        #[trigger] ids@[j],
                        now,
                    ) by {
                        assert(!start.left_pending(now).contains(ids@[j]));
                    }
                } else {
                    let id = choose|id: u64| start.left_pending(now).contains(id);
                    assert(start.left_pending(now).contains(id)) by {
                        if forall|x: u64| !start.left_pending(now).contains(x) {
                            assert(start.left_pending(now) =~= Set::empty());
                        }
                    }
                    assert(ids@.contains(id));
                    let j = choose|j: int| 0 <= j < ids@.len() && ids@[j] == id;
                    assert(start.stays_pending(ids@[j], now));
                }
            }
            lemma_walked_deliveries_done(start, ids@, now, deliveries_view(deliveries@));
        }
        (deliveries, remove_ids)
    }

    /// Runs the retry scheduler at `now`: if subscriptions are pending and the
    /// latest pass is at least the retry interval back, sends for or gives up
    /// those that are due. Returns the requests to post and how long the
    /// caller may wait for the next event.
    pub fn schedule_retries(&mut self, now: u64) -> (pass: RetryPass)
        ensures
            final(self)@ == old(self)@.after_retry(now),
            pass.retry_timeout == old(self)@.retry_timeout(now),
            old(self)@.issued_by_retry(now, deliveries_view(pass.deliveries@)),
            !old(self)@.pass_due(now) ==> pass.deliveries@.len() == 0,
    {
        let ghost start = self@;
        if no_pending(&self.retry_ids) {
            return RetryPass { deliveries: Vec::new(), retry_timeout: LONG_SLUMBER };
        }
        let since = elapsed_since(now, self.last_retry as i128);
        if since < self.settings.push_retry_interval as u128 {
            return RetryPass {
                deliveries: Vec::new(),
                retry_timeout: self.settings.push_retry_interval - since as u64,
            };
        }
        let ids = pending_list(&self.retry_ids);
        let (deliveries, remove_ids) = self.retry_walk(&ids, now);
        if remove_ids.len() < ids.len() {
            let mut k: usize = 0;
            proof {
                assert(pending_entries(self.retry_ids) =~= Set::new(
                    |id: u64|
                        start.retry_ids.contains(id) && !remove_ids@.take(0).contains(id),
                ));
            }
            while k < remove_ids.len()
                invariant
                    k <= remove_ids.len(),
                    self.settings == start.settings,
                    self.last_retry == start.last_retry,
                    verification_entries(self.last_verify) == start.last_verify,
                    subscriptions_view(subscription_entries(self.subscriptions))
                        == start.retried_subscriptions(now),
                    pending_entries(self.retry_ids) == Set::new(
                        |id: u64|
                            start.retry_ids.contains(id) && !remove_ids@.take(k as int).contains(
                                id,
                            ),
                    ),
                decreases remove_ids.len() - k,
            {
                let ghost removed = remove_ids@.take(k as int);
                proof {
                    assert(remove_ids@.take(k + 1) =~= removed.push(remove_ids@[k as int]));
                    lemma_push_contains(removed, remove_ids@[k as int]);
                }
                drop_pending(&mut self.retry_ids, remove_ids[k]);
                proof {
                    assert(pending_entries(self.retry_ids) =~= Set::new(
                        |id: u64|
                            start.retry_ids.contains(id) && !remove_ids@.take(k + 1).contains(id),
                    ));
                }
                k += 1;
            }
            self.last_retry = now;
            proof {
                assert(remove_ids@.take(remove_ids.len() as int) =~= remove_ids@);
                assert(pending_entries(self.retry_ids) =~= start.left_pending(now));
            }
            RetryPass { deliveries, retry_timeout: self.settings.push_retry_interval }
        } else {
            clear_pending(&mut self.retry_ids);
            proof {
                assert(pending_entries(self.retry_ids) =~= start.left_pending(now));
            }
            RetryPass { deliveries, retry_timeout: LONG_SLUMBER }
        }
    }

    /// One turn of the manager's loop at `now`: handles the event, if one has
    /// arrived before the timeout, and then runs the retry scheduler.
    pub fn step(&mut self, event: Option<Event>, now: u64) -> (turn: Turn)
        ensures
            final(self)@ == old(self)@.after_event(event_view(event), now).state.after_retry(now),
            turn.retry_timeout == old(self)@.after_event(event_view(event), now).state.retry_timeout(
                now,
            ),
            actions_view(turn.actions@) == old(self)@.after_event(event_view(event), now).actions,
            old(self)@.after_event(event_view(event), now).state.issued_by_retry(
                now,
                deliveries_view(turn.retries@),
            ),
            !old(self)@.after_event(event_view(event), now).state.pass_due(now)
                ==> turn.retries@.len() == 0,
    {
        let actions = match event {
            Some(e) => self.handle_event(e, now),
            None => {
                let actions: Vec<Action> = Vec::new();
                proof {
                    assert(actions_view(actions@) =~= Seq::<ActionView>::empty());
                }
                actions
            },
        };
        let pass = self.schedule_retries(now);
        Turn { actions, retries: pass.deliveries, retry_timeout: pass.retry_timeout }
    }
}

/// What a run of the retry scheduler asks of the caller.
#[derive(Debug)]
pub struct RetryPass {
    /// The requests to post, in no fixed order.
    pub deliveries: Vec<Delivery>,
    /// How long to wait for the next event before the scheduler runs again.
    pub retry_timeout: u64,
}

/// What one turn of the manager's loop asks of the caller.
#[derive(Debug)]
pub struct Turn {
    /// The requests that the event has issued, oldest first.
    pub actions: Vec<Action>,
    /// The requests that the retry scheduler has issued, in no fixed order.
    pub retries: Vec<Delivery>,
    /// How long to wait for the next event.
    pub retry_timeout: u64,
}

/// The view of an event that may be absent.
pub open spec fn event_view(event: Option<Event>) -> Option<crate::event::EventView> {
    match event {
        Some(e) => Some(e@),
        None => None,
    }
}

proof fn lemma_push_contains(s: Seq<u64>, x: u64)
    ensures
        forall|y: u64| #[trigger] s.push(x).contains(y) <==> s.contains(y) || y == x,
{
    assert forall|y: u64| #[trigger] s.push(x).contains(y) <==> s.contains(y) || y == x by {
        if s.push(x).contains(y) {
            let k = choose|k: int| 0 <= k < s.push(x).len() && s.push(x)[k] == y;
            if k < s.len() {
                assert(s[k] == y);
            }
        }
        if s.contains(y) {
            let k = choose|k: int| 0 <= k < s.len() && s[k] == y;
            assert(s.push(x)[k] == y);
        }
        if y == x {
            assert(s.push(x)[s.len() as int] == y);
        }
    }
}

/// The subscriptions after the retry pass has walked the ids `done`.
pub open spec fn walked_subscriptions(start: ManagerView, done: Seq<u64>, now: u64) -> Map<
    u64,
    SubscriptionView,
> {
    Map::new(
        |id: u64| start.subscriptions.contains_key(id),
        |id: u64|
            if done.contains(id) && start.retries(id, now) {
                start.subscriptions[id].retried(start.settings, now)
            } else {
                start.subscriptions[id]
            },
    )
}

/// Whether `deliveries` are the requests that the retry pass has started when
/// it has walked the ids `done`.
pub open spec fn walked_deliveries(
    start: ManagerView,
    done: Seq<u64>,
    now: u64,
    deliveries: Seq<DeliveryView>,
) -> bool {
    &&& forall|i: int|
        0 <= i < deliveries.len() ==> {
            &&& done.contains(#[trigger] deliveries[i].id)
            &&& start.retry_sends(deliveries[i].id, now)
            &&& deliveries[i] == start.subscriptions[deliveries[i].id].delivery(deliveries[i].id)
        }
    &&& forall|i: int, j: int|
        0 <= i < j < deliveries.len() ==> #[trigger] deliveries[i].id
            != #[trigger] deliveries[j].id
    &&& forall|id: u64|
        done.contains(id) && #[trigger] start.retry_sends(id, now) ==> exists|i: int|
            0 <= i < deliveries.len() && #[trigger] deliveries[i].id == id
}

proof fn lemma_walked_deliveries_step(
    start: ManagerView,
    done: Seq<u64>,
    id: u64,
    now: u64,
    before: Seq<DeliveryView>,
    after: Seq<DeliveryView>,
)
    requires
        walked_deliveries(start, done, now, before),
        !done.contains(id),
        start.retry_ids.contains(id),
        if start.retry_sends(id, now) {
            after == before.push(start.subscriptions[id].delivery(id))
        } else {
            after == before
        },
    ensures
        walked_deliveries(start, done.push(id), now, after),
{
    let next = done.push(id);
    assert forall|other: u64| done.contains(other) implies next.contains(other) by {
        let k = choose|k: int| 0 <= k < done.len() && done[k] == other;
        assert(next[k] == other);
    }
    assert(next[done.len() as int] == id);
    assert forall|other: u64| next.contains(other) implies done.contains(other) || other == id by {
        let k = choose|k: int| 0 <= k < next.len() && next[k] == other;
        if k < done.len() {
            assert(done[k] == other);
        }
    }
    assert forall|other: u64|
        next.contains(other) && #[trigger] start.retry_sends(other, now) implies exists|i: int|
        0 <= i < after.len() && #[trigger] after[i].id == other by {
        if other == id {
            assert(after[before.len() as int].id == id);
        } else {
            assert(done.contains(other));
            let i = choose|i: int| 0 <= i < before.len() && #[trigger] before[i].id == other;
            assert(after[i].id == other);
        }
    }
    assert forall|i: int, j: int| 0 <= i < j < after.len() implies #[trigger] after[i].id
        != #[trigger] after[j].id by {
        if j == before.len() {
            assert(done.contains(before[i].id));
        }
    }
}

proof fn lemma_walked_deliveries_done(
    start: ManagerView,
    ids: Seq<u64>,
    now: u64,
    deliveries: Seq<DeliveryView>,
)
    requires
        walked_deliveries(start, ids, now, deliveries),
        start.pass_due(now),
        forall|id: u64| ids.contains(id) == start.retry_ids.contains(id),
    ensures
        start.issued_by_retry(now, deliveries),
{
}

} // verus!
