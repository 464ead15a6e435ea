//! What holds of the manager whatever it is told: laws of the state machine
//! of [`crate::model`], proved from its definition.

use vstd::prelude::*;
use crate::clock::elapsed;
use crate::event::{ActionView, EventView, PushUpdateView};
use crate::model::{ManagerView, Outcome};
use crate::settings::Settings;
use crate::state_change::StateChangeView;
use crate::subscription::{KeysView, SubscriptionView};

verus! {

/// Registering an id that is known changes nothing: the subscription keeps its
/// url, its keys, its queue and its delivery state.
pub proof fn law_register_known_id_changes_nothing(
    m: ManagerView,
    id: u64,
    url: Seq<char>,
    keys: Option<KeysView>,
    now: u64,
)
    requires
        m.subscriptions.contains_key(id),
    ensures
        m.register(id, url, keys, now) == m,
        m.handle(
            EventView::Update { updates: seq![PushUpdateView::Register { id, url, keys }] },
            now,
        ) == m.quiet(),
{
    let updates = seq![PushUpdateView::Register { id, url, keys }];
    assert(updates.drop_last() =~= Seq::<PushUpdateView>::empty());
    assert(m.apply_updates(updates.drop_last(), now) == m.quiet());
    assert(m.quiet().actions + m.quiet().actions =~= m.quiet().actions);
}

/// Registering the same id a second time, with whatever url and keys and at
/// whatever time, leaves what the first registration has stored.
pub proof fn law_register_is_idempotent(
    m: ManagerView,
    id: u64,
    url: Seq<char>,
    keys: Option<KeysView>,
    now: u64,
    url_again: Seq<char>,
    keys_again: Option<KeysView>,
    later: u64,
)
    ensures
        m.register(id, url, keys, now).register(id, url_again, keys_again, later) == m.register(
            id,
            url,
            keys,
            now,
        ),
{
}

/// A report for an id that is not registered, as it arrives after the
/// subscription was removed while its request was on its way, is dropped: the
/// state stays as it is and nothing is issued.
pub proof fn law_report_for_unknown_id_is_dropped(
    m: ManagerView,
    id: u64,
    batch: Seq<StateChangeView>,
    now: u64,
)
    requires
        !m.subscriptions.contains_key(id),
    ensures
        m.handle(EventView::DeliverySuccess { id }, now) == m.quiet(),
        m.handle(EventView::DeliveryFailure { id, state_changes: batch }, now) == m.quiet(),
{
}

/// After a subscription was removed, the report of the request that was in
/// flight for it changes nothing, whichever way the request went.
pub proof fn law_report_after_unregister_is_dropped(
    m: ManagerView,
    id: u64,
    batch: Seq<StateChangeView>,
    now: u64,
)
    ensures
        m.unregister(id).delivery_succeeded(id) == m.unregister(id),
        m.unregister(id).delivery_failed(id, batch, now) == m.unregister(id),
{
}

/// A reset forgets every subscription, issues nothing, and leaves the
/// verification times, the pending set and the settings as they were.
pub proof fn law_reset_keeps_verification_times(m: ManagerView, now: u64)
    ensures
        m.handle(EventView::Reset, now).actions == Seq::<ActionView>::empty(),
        m.handle(EventView::Reset, now).state.subscriptions == Map::<
            u64,
            SubscriptionView,
        >::empty(),
        m.handle(EventView::Reset, now).state.last_verify == m.last_verify,
        m.handle(EventView::Reset, now).state.retry_ids == m.retry_ids,
        m.handle(EventView::Reset, now).state.last_retry == m.last_retry,
        m.handle(EventView::Reset, now).state.settings == m.settings,
{
}

/// A healthy, idle subscription whose latest request is exactly the throttle
/// back may not send when a change arrives, but is due at the retry pass.
pub proof fn law_throttle_boundary(s: SubscriptionView, settings: Settings, now: u64)
    requires
        !s.in_flight,
        s.num_attempts == 0,
        s.idle_for(now) == settings.push_throttle,
    ensures
        !s.sendable_on_push(settings, now),
        s.due_on_retry(settings, now),
{
}

/// A failing subscription whose latest attempt is exactly the attempt interval
/// back may not send when a change arrives, but is due at the retry pass.
pub proof fn law_attempt_interval_boundary(s: SubscriptionView, settings: Settings, now: u64)
    requires
        !s.in_flight,
        s.num_attempts > 0,
        s.idle_for(now) == settings.push_attempt_interval,
    ensures
        !s.sendable_on_push(settings, now),
        s.due_on_retry(settings, now),
{
}

/// The last attempt: a subscription that is due with one attempt left gets a
/// request; if that fails, the count stands at the maximum; and the next time
/// it is due, the chain is given up: the count is zero again and the queue
/// empty.
pub proof fn law_last_attempt_then_abandon(
    s: SubscriptionView,
    settings: Settings,
    now: u64,
    batch: Seq<StateChangeView>,
    failed_at: u64,
    later: u64,
)
    requires
        s.num_attempts + 1 == settings.push_attempts_max,
    ensures
        s.retried(settings, now) == s.sent(now),
        s.retried(settings, now).in_flight,
        s.sent(now).failed(batch, failed_at).num_attempts == settings.push_attempts_max,
        s.sent(now).failed(batch, failed_at).retried(settings, later).num_attempts == 0,
        s.sent(now).failed(batch, failed_at).retried(settings, later).state_changes
            == Seq::<StateChangeView>::empty(),
        !s.sent(now).failed(batch, failed_at).retried(settings, later).in_flight,
{
}

/// When the retry pass finds a due subscription that has used up its attempts,
/// it resets the count and clears the queue in that same pass, and starts no
/// request for it.
pub proof fn law_exhausted_chain_is_reset_in_the_pass(m: ManagerView, id: u64, now: u64)
    requires
        m.pass_due(now),
        m.retry_abandons(id, now),
    ensures
        m.after_retry(now).subscriptions.contains_key(id),
        m.after_retry(now).subscriptions[id].num_attempts == 0,
        m.after_retry(now).subscriptions[id].state_changes == Seq::<StateChangeView>::empty(),
        !m.after_retry(now).retry_ids.contains(id),
        !m.retry_sends(id, now),
{
}

/// Whether two subscriptions differ in nothing but what they have queued.
pub open spec fn same_but_queue(a: SubscriptionView, b: SubscriptionView) -> bool {
    &&& a.url == b.url
    &&& a.keys == b.keys
    &&& a.num_attempts == b.num_attempts
    &&& a.last_request == b.last_request
    &&& a.in_flight == b.in_flight
}

/// Whether one of `actions` is a delivery for subscription `id`.
pub open spec fn delivers(actions: Seq<ActionView>, id: u64) -> bool {
    exists|i: int| 0 <= i < actions.len() && (#[trigger] actions[i]).delivers_to(id)
}

/// Whether one of `actions` is a verification request for `account_id`.
pub open spec fn verifies(actions: Seq<ActionView>, account_id: u32) -> bool {
    exists|i: int| 0 <= i < actions.len() && (#[trigger] actions[i]).verifies(account_id)
}

/// Whether `actions` hold at most one delivery for subscription `id`.
pub open spec fn delivers_at_most_once(actions: Seq<ActionView>, id: u64) -> bool {
    forall|i: int, j: int|
        0 <= i < j < actions.len() ==> !((#[trigger] actions[i]).delivers_to(id) && (
        #[trigger] actions[j]).delivers_to(id))
}

/// Whether `actions` hold at most one verification request for `account_id`.
pub open spec fn verifies_at_most_once(actions: Seq<ActionView>, account_id: u32) -> bool {
    forall|i: int, j: int|
        0 <= i < j < actions.len() ==> !((#[trigger] actions[i]).verifies(account_id) && (
        #[trigger] actions[j]).verifies(account_id))
}

proof fn lemma_delivers_concat(a: Seq<ActionView>, b: Seq<ActionView>, id: u64)
    ensures
        delivers(a + b, id) <==> delivers(a, id) || delivers(b, id),
{
    let c = a + b;
    if delivers(c, id) {
        let i = choose|i: int| 0 <= i < c.len() && (#[trigger] c[i]).delivers_to(id);
        if i < a.len() {
            assert(a[i].delivers_to(id));
        } else {
            assert(b[i - a.len()].delivers_to(id));
        }
    }
    if delivers(a, id) {
        let i = choose|i: int| 0 <= i < a.len() && (#[trigger] a[i]).delivers_to(id);
        assert(c[i].delivers_to(id));
    }
    if delivers(b, id) {
        let i = choose|i: int| 0 <= i < b.len() && (#[trigger] b[i]).delivers_to(id);
        assert(c[i + a.len()].delivers_to(id));
    }
}

proof fn lemma_verifies_concat(a: Seq<ActionView>, b: Seq<ActionView>, account_id: u32)
    ensures
        verifies(a + b, account_id) <==> verifies(a, account_id) || verifies(b, account_id),
{
    let c = a + b;
    if verifies(c, account_id) {
        let i = choose|i: int| 0 <= i < c.len() && (#[trigger] c[i]).verifies(account_id);
        if i < a.len() {
            assert(a[i].verifies(account_id));
        } else {
            assert(b[i - a.len()].verifies(account_id));
        }
    }
    if verifies(a, account_id) {
        let i = choose|i: int| 0 <= i < a.len() && (#[trigger] a[i]).verifies(account_id);
        assert(c[i].verifies(account_id));
    }
    if verifies(b, account_id) {
        let i = choose|i: int| 0 <= i < b.len() && (#[trigger] b[i]).verifies(account_id);
        assert(c[i + a.len()].verifies(account_id));
    }
}

/// What taking in a change for the subscriptions `ids` does to subscription
/// `id` and to the rest of the state.
proof fn lemma_ingest_all_effect(
    m: ManagerView,
    ids: Seq<u64>,
    change: StateChangeView,
    now: u64,
    id: u64,
)
    ensures
        ({
            let o = m.ingest_all(ids, change, now);
            &&& o.state.settings == m.settings
            &&& o.state.last_verify == m.last_verify
            &&& o.state.last_retry == m.last_retry
            &&& o.state.subscriptions.contains_key(id) == m.subscriptions.contains_key(id)
            &&& forall|i: int| 0 <= i < o.actions.len() ==> (#[trigger] o.actions[i]) is Deliver
            &&& delivers_at_most_once(o.actions, id)
            &&& !ids.contains(id) ==> {
                &&& !delivers(o.actions, id)
                &&& m.subscriptions.contains_key(id) ==> o.state.subscriptions[id]
                    == m.subscriptions[id]
                &&& o.state.retry_ids.contains(id) == m.retry_ids.contains(id)
            }
            &&& delivers(o.actions, id) ==> {
                &&& m.subscriptions.contains_key(id)
                &&& m.subscriptions[id].sendable_on_push(m.settings, now)
                &&& o.state.subscriptions[id].in_flight
                &&& o.state.subscriptions[id].last_request == now
                &&& o.state.subscriptions[id].num_attempts == m.subscriptions[id].num_attempts
            }
            &&& !delivers(o.actions, id) && m.subscriptions.contains_key(id) ==> {
                &&& same_but_queue(o.state.subscriptions[id], m.subscriptions[id])
                &&& ids.contains(id) ==> {
                    &&& o.state.subscriptions[id].state_changes.len() > 0
                    &&& !m.subscriptions[id].sendable_on_push(m.settings, now)
                    &&& o.state.retry_ids.contains(id)
                }
            }
        }),
    decreases ids.len(),
{
    let o = m.ingest_all(ids, change, now);
    if ids.len() == 0 {
        assert(!ids.contains(id));
    } else {
        let rest = ids.drop_last();
        let last = ids.last();
        lemma_ingest_all_effect(m, rest, change, now, id);
        lemma_ingest_all_effect(m, rest, change, now, last);
        let before = m.ingest_all(rest, change, now);
        let step = before.state.ingest(last, change, now);
        assert(o == before.and_then(step));
        lemma_delivers_concat(before.actions, step.actions, id);
        assert(ids.contains(id) <==> rest.contains(id) || last == id) by {
            if ids.contains(id) {
                let k = choose|k: int| 0 <= k < ids.len() && ids[k] == id;
                if k < rest.len() {
                    assert(rest[k] == id);
                }
            }
            if rest.contains(id) {
                let k = choose|k: int| 0 <= k < rest.len() && rest[k] == id;
                assert(ids[k] == id);
            }
            if last == id {
                assert(ids[ids.len() - 1] == id);
            }
        }
        assert(delivers(step.actions, id) <==> last == id && before.state.subscriptions.contains_key(
            id,
        ) && before.state.subscriptions[id].queued(change).sendable_on_push(m.settings, now)) by {
            if delivers(step.actions, id) {
                let i = choose|i: int|
                    0 <= i < step.actions.len() && (#[trigger] step.actions[i]).delivers_to(id);
                assert(step.actions[i].delivers_to(id));
            }
            if last == id && before.state.subscriptions.contains_key(id)
                && before.state.subscriptions[id].queued(change).sendable_on_push(
                m.settings,
                now,
            ) {
                assert(step.actions[0].delivers_to(id));
            }
        }
        assert forall|i: int| 0 <= i < o.actions.len() implies (#[trigger] o.actions[i]) is Deliver by {
            if i < before.actions.len() {
                assert(before.actions[i] is Deliver);
            } else {
                assert(step.actions[i - before.actions.len()] is Deliver);
            }
        }
        assert(delivers_at_most_once(o.actions, id)) by {
            assert forall|i: int, j: int| 0 <= i < j < o.actions.len() implies !((
            #[trigger] o.actions[i]).delivers_to(id) && (#[trigger] o.actions[j]).delivers_to(
                id,
            )) by {
                if o.actions[i].delivers_to(id) && o.actions[j].delivers_to(id) {
                    if j < before.actions.len() {
                        assert(before.actions[i].delivers_to(id));
                        assert(before.actions[j].delivers_to(id));
                    } else {
                        assert(step.actions[j - before.actions.len()].delivers_to(id));
                        assert(delivers(step.actions, id));
                        assert(i < before.actions.len());
                        assert(before.actions[i].delivers_to(id));
                        assert(delivers(before.actions, id));
                    }
                }
            }
        }
    }
}

/// Whether `update` removes subscription `id`.
pub open spec fn unregisters(update: PushUpdateView, id: u64) -> bool {
    update matches PushUpdateView::Unregister { id: gone } && gone == id
}

/// Whether `event` removes subscription `id`: it resets the manager or holds
/// an update that unregisters the id.
pub open spec fn removes(event: EventView, id: u64) -> bool {
    match event {
        EventView::Reset => true,
        EventView::Update { updates } => exists|i: int|
            0 <= i < updates.len() && unregisters(#[trigger] updates[i], id),
        _ => false,
    }
}

/// Whether `event` reports how the request of subscription `id` ended.
pub open spec fn reports(event: EventView, id: u64) -> bool {
    match event {
        EventView::DeliverySuccess { id: ended } => ended == id,
        EventView::DeliveryFailure { id: ended, .. } => ended == id,
        _ => false,
    }
}

/// Whether a subscription is as registration makes it at `now`.
pub open spec fn is_fresh(s: SubscriptionView, settings: Settings, now: u64) -> bool {
    s == SubscriptionView::fresh(s.url, s.keys, settings, now)
}

/// What applying `updates` does to subscription `id` and to the rest of the
/// state.
proof fn lemma_apply_updates_effect(
    m: ManagerView,
    updates: Seq<PushUpdateView>,
    now: u64,
    id: u64,
)
    ensures
        ({
            let o = m.apply_updates(updates, now);
            &&& o.state.settings == m.settings
            &&& o.state.retry_ids == m.retry_ids
            &&& o.state.last_retry == m.last_retry
            &&& forall|i: int| 0 <= i < o.actions.len() ==> (#[trigger] o.actions[i]) is Verify
            &&& !delivers(o.actions, id)
            &&& o.state.subscriptions.contains_key(id) ==> {
                ||| m.subscriptions.contains_key(id) && o.state.subscriptions[id]
                    == m.subscriptions[id]
                ||| is_fresh(o.state.subscriptions[id], m.settings, now)
            }
            &&& (forall|i: int| 0 <= i < updates.len() ==> !unregisters(#[trigger] updates[i], id))
                && m.subscriptions.contains_key(id) ==> {
                &&& o.state.subscriptions.contains_key(id)
                &&& o.state.subscriptions[id] == m.subscriptions[id]
            }
        }),
    decreases updates.len(),
{
    let o = m.apply_updates(updates, now);
    if updates.len() == 0 {
    } else {
        let rest = updates.drop_last();
        let last = updates.last();
        lemma_apply_updates_effect(m, rest, now, id);
        let before = m.apply_updates(rest, now);
        let step = before.state.apply_update(last, now);
        assert(o == before.and_then(step));
        assert forall|i: int| 0 <= i < o.actions.len() implies (#[trigger] o.actions[i]) is Verify by {
            if i < before.actions.len() {
                assert(before.actions[i] is Verify);
            } else {
                assert(step.actions[i - before.actions.len()] is Verify);
            }
        }
        assert(!delivers(o.actions, id)) by {
            if delivers(o.actions, id) {
                let i = choose|i: int|
                    0 <= i < o.actions.len() && (#[trigger] o.actions[i]).delivers_to(id);
                assert(o.actions[i] is Verify);
            }
        }
        if (forall|i: int| 0 <= i < updates.len() ==> !unregisters(#[trigger] updates[i], id)) {
            assert forall|i: int| 0 <= i < rest.len() implies !unregisters(
                #[trigger] rest[i],
                id,
            ) by {
                assert(rest[i] == updates[i]);
            }
            assert(!unregisters(updates[updates.len() - 1], id));
        }
    }
}

/// What applying `updates` does to the verification time of `account_id`.
proof fn lemma_apply_updates_verifications(
    m: ManagerView,
    updates: Seq<PushUpdateView>,
    now: u64,
    account_id: u32,
)
    ensures
        ({
            let o = m.apply_updates(updates, now);
            &&& verifies_at_most_once(o.actions, account_id)
            &&& verifies(o.actions, account_id) ==> {
                &&& m.may_verify(account_id, now)
                &&& o.state.last_verify.contains_key(account_id)
                &&& o.state.last_verify[account_id] == now
            }
            &&& !verifies(o.actions, account_id) ==> {
                &&& o.state.last_verify.contains_key(account_id) == m.last_verify.contains_key(
                    account_id,
                )
                &&& o.state.last_verify[account_id] == m.last_verify[account_id]
            }
        }),
    decreases updates.len(),
{
    let o = m.apply_updates(updates, now);
    if updates.len() == 0 {
        assert(!verifies(o.actions, account_id));
    } else {
        let rest = updates.drop_last();
        let last = updates.last();
        lemma_apply_updates_verifications(m, rest, now, account_id);
        lemma_apply_updates_effect(m, rest, now, 0);
        let before = m.apply_updates(rest, now);
        let step = before.state.apply_update(last, now);
        assert(o == before.and_then(step));
        lemma_verifies_concat(before.actions, step.actions, account_id);
        assert(verifies(step.actions, account_id) <==> (last matches PushUpdateView::Verify {
            account_id: a,
            ..
        } && a == account_id && before.state.may_verify(account_id, now))) by {
            if verifies(step.actions, account_id) {
                let i = choose|i: int|
                    0 <= i < step.actions.len() && (#[trigger] step.actions[i]).verifies(
                        account_id,
                    );
                assert(step.actions[i].verifies(account_id));
            }
            if (last matches PushUpdateView::Verify { account_id: a, .. } && a == account_id
                && before.state.may_verify(account_id, now)) {
                assert(step.actions[0].verifies(account_id));
            }
        }
        assert(verifies_at_most_once(o.actions, account_id)) by {
            assert forall|i: int, j: int| 0 <= i < j < o.actions.len() implies !((
            #[trigger] o.actions[i]).verifies(account_id) && (#[trigger] o.actions[j]).verifies(
                account_id,
            )) by {
                if o.actions[i].verifies(account_id) && o.actions[j].verifies(account_id) {
                    if j < before.actions.len() {
                        assert(before.actions[i].verifies(account_id));
                        assert(before.actions[j].verifies(account_id));
                    } else {
                        assert(step.actions[j - before.actions.len()].verifies(account_id));
                        assert(verifies(step.actions, account_id));
                        assert(i < before.actions.len());
                        assert(before.actions[i].verifies(account_id));
                        assert(verifies(before.actions, account_id));
                    }
                }
            }
        }
    }
}

/// What an event does to subscription `id`, to the verification times and to
/// the rest of the state.
proof fn lemma_event_effect(m: ManagerView, event: Option<EventView>, now: u64, id: u64)
    ensures
        ({
            let o = m.after_event(event, now);
            &&& o.state.settings == m.settings
            &&& o.state.last_retry == m.last_retry
            &&& delivers_at_most_once(o.actions, id)
            &&& delivers(o.actions, id) ==> {
                &&& m.subscriptions.contains_key(id)
                &&& m.subscriptions[id].sendable_on_push(m.settings, now)
                &&& o.state.subscriptions.contains_key(id)
                &&& o.state.subscriptions[id].in_flight
                &&& o.state.subscriptions[id].last_request == now
                &&& o.state.subscriptions[id].num_attempts == m.subscriptions[id].num_attempts
            }
            &&& !delivers(o.actions, id) && o.state.subscriptions.contains_key(id) ==> {
                ||| is_fresh(o.state.subscriptions[id], m.settings, now)
                ||| m.subscriptions.contains_key(id) && same_but_queue(
                    o.state.subscriptions[id],
                    m.subscriptions[id],
                )
                ||| m.subscriptions.contains_key(id) && event == Some(
                    EventView::DeliverySuccess { id },
                ) && o.state.subscriptions[id] == m.subscriptions[id].succeeded()
                ||| m.subscriptions.contains_key(id) && (event matches Some(
                    EventView::DeliveryFailure { id: failed, state_changes },
                ) && failed == id && o.state.subscriptions[id] == m.subscriptions[id].failed(
                    state_changes,
                    now,
                ))
            }
            &&& m.subscriptions.contains_key(id) && !(event matches Some(e) && removes(e, id))
                ==> {
                &&& o.state.subscriptions.contains_key(id)
                &&& o.state.subscriptions[id].last_request == m.subscriptions[id].last_request
                    || o.state.subscriptions[id].last_request == now
                &&& m.subscriptions[id].in_flight && !(event matches Some(e) && reports(e, id))
                    ==> o.state.subscriptions[id].in_flight
            }
        }),
{
    match event {
        Some(EventView::Update { updates }) => {
            lemma_apply_updates_effect(m, updates, now, id);
            if !removes(EventView::Update { updates }, id) {
                assert forall|i: int| 0 <= i < updates.len() implies !unregisters(
                    #[trigger] updates[i],
                    id,
                ) by {}
            }
        },
        Some(EventView::Push { ids, state_change }) => {
            lemma_ingest_all_effect(m, ids, state_change, now, id);
        },
        Some(EventView::Reset) => {
            assert(!delivers(m.quiet().actions, id));
        },
        Some(EventView::DeliverySuccess { id: other }) => {
            assert(!delivers(m.quiet().actions, id));
        },
        Some(EventView::DeliveryFailure { id: other, state_changes }) => {
            assert(!delivers(m.quiet().actions, id));
        },
        None => {
            assert(!delivers(m.quiet().actions, id));
        },
    }
}

/// Whether no subscription has more failed attempts than the settings allow,
/// and each one that is in flight has an attempt left to fail.
pub open spec fn attempts_bounded(m: ManagerView) -> bool {
    forall|id: u64| #[trigger]
        m.subscriptions.contains_key(id) ==> {
            &&& m.subscriptions[id].num_attempts <= m.settings.push_attempts_max
            &&& m.subscriptions[id].in_flight ==> m.subscriptions[id].num_attempts
                < m.settings.push_attempts_max
        }
}

/// Whether `event` reports a failure for a subscription that has no request in
/// flight.
pub open spec fn is_stray_failure(m: ManagerView, event: Option<EventView>) -> bool {
    event matches Some(EventView::DeliveryFailure { id, .. }) && m.subscriptions.contains_key(id)
        && !m.subscriptions[id].in_flight
}

/// The attempt count never exceeds the maximum: where at least one attempt is
/// allowed and every failure report answers a request that is in flight, a
/// state within the bound stays within it through the event and through the
/// retry pass that follows.
pub proof fn law_attempts_never_exceed_maximum(
    m: ManagerView,
    event: Option<EventView>,
    now: u64,
)
    requires
        attempts_bounded(m),
        m.settings.push_attempts_max >= 1,
        !is_stray_failure(m, event),
    ensures
        attempts_bounded(m.after_event(event, now).state),
        attempts_bounded(m.after_event(event, now).state.after_retry(now)),
{
    let o = m.after_event(event, now);
    assert forall|id: u64| #[trigger] o.state.subscriptions.contains_key(id) implies {
        &&& o.state.subscriptions[id].num_attempts <= o.state.settings.push_attempts_max
        &&& o.state.subscriptions[id].in_flight ==> o.state.subscriptions[id].num_attempts
            < o.state.settings.push_attempts_max
    } by {
        lemma_event_effect(m, event, now, id);
        if m.subscriptions.contains_key(id) {
            assert(m.subscriptions[id].num_attempts <= m.settings.push_attempts_max);
        }
    }
    law_retry_keeps_attempts_bounded(o.state, now);
}

/// The retry pass keeps the attempt count within the maximum: it starts a
/// request only where an attempt is left, and resets the count where none is.
pub proof fn law_retry_keeps_attempts_bounded(m: ManagerView, now: u64)
    requires
        attempts_bounded(m),
    ensures
        attempts_bounded(m.after_retry(now)),
{
    let after = m.after_retry(now);
    assert forall|id: u64| #[trigger] after.subscriptions.contains_key(id) implies {
        &&& after.subscriptions[id].num_attempts <= after.settings.push_attempts_max
        &&& after.subscriptions[id].in_flight ==> after.subscriptions[id].num_attempts
            < after.settings.push_attempts_max
    } by {
        assert(m.subscriptions.contains_key(id));
    }
}

/// Whether the turn that handles `event` at `now` and then runs the retry
/// scheduler starts a request for subscription `id`.
pub open spec fn turn_delivers(m: ManagerView, event: Option<EventView>, now: u64, id: u64) -> bool {
    let o = m.after_event(event, now);
    delivers(o.actions, id) || (o.state.pass_due(now) && o.state.retry_sends(id, now))
}

/// At most one request per subscription is in flight: within one turn a
/// subscription gets at most one request, from the event or from the retry
/// pass but not from both; it gets one only while none is in flight; and it is
/// in flight afterwards.
pub proof fn law_one_request_in_flight(m: ManagerView, event: Option<EventView>, now: u64, id: u64)
    ensures
        ({
            let o = m.after_event(event, now);
            &&& delivers_at_most_once(o.actions, id)
            &&& delivers(o.actions, id) ==> {
                &&& m.subscriptions.contains_key(id)
                &&& !m.subscriptions[id].in_flight
                &&& o.state.subscriptions[id].in_flight
                &&& !o.state.retry_sends(id, now)
            }
            &&& o.state.retry_sends(id, now) ==> !o.state.subscriptions[id].in_flight
            &&& turn_delivers(m, event, now, id) ==> {
                &&& o.state.after_retry(now).subscriptions.contains_key(id)
                &&& o.state.after_retry(now).subscriptions[id].in_flight
            }
        }),
{
    lemma_event_effect(m, event, now, id);
}

/// The gap that a subscription with `num_attempts` failed attempts has to
/// leave after its latest request: the throttle while healthy, the attempt
/// interval in a retry chain.
pub open spec fn required_gap(settings: Settings, num_attempts: u32) -> u64 {
    if num_attempts == 0 {
        settings.push_throttle
    } else {
        settings.push_attempt_interval
    }
}

/// A request is started only after the required gap: an arriving change goes
/// out only if more than the gap has passed since the subscription's latest
/// request, the retry pass sends only if at least the gap has passed, and
/// either way the request is dated `now`.
pub proof fn law_request_waits_out_the_gap(
    m: ManagerView,
    event: Option<EventView>,
    now: u64,
    id: u64,
)
    ensures
        ({
            let o = m.after_event(event, now);
            &&& delivers(o.actions, id) ==> {
                &&& m.subscriptions[id].idle_for(now) > required_gap(
                    m.settings,
                    m.subscriptions[id].num_attempts,
                )
                &&& o.state.subscriptions[id].last_request == now
                &&& o.state.after_retry(now).subscriptions[id].last_request == now
            }
            &&& o.state.pass_due(now) && o.state.retry_sends(id, now) ==> {
                &&& o.state.subscriptions[id].idle_for(now) >= required_gap(
                    m.settings,
                    o.state.subscriptions[id].num_attempts,
                )
                &&& o.state.after_retry(now).subscriptions[id].last_request == now
            }
        }),
{
    lemma_event_effect(m, event, now, id);
}

/// One verification request per account and window: within one event an
/// account gets at most one request; it gets one only if it had none before or
/// the latest is more than the verification window back; and the request is
/// noted with the time `now`.
pub proof fn law_verification_is_rate_limited(
    m: ManagerView,
    event: Option<EventView>,
    now: u64,
    account_id: u32,
)
    ensures
        ({
            let o = m.after_event(event, now);
            &&& verifies_at_most_once(o.actions, account_id)
            &&& verifies(o.actions, account_id) ==> {
                &&& m.may_verify(account_id, now)
                &&& o.state.last_verify.contains_key(account_id)
                &&& o.state.last_verify[account_id] == now
            }
            &&& !verifies(o.actions, account_id) ==> {
                &&& o.state.last_verify.contains_key(account_id) == m.last_verify.contains_key(
                    account_id,
                )
                &&& o.state.last_verify[account_id] == m.last_verify[account_id]
            }
            &&& o.state.after_retry(now).last_verify == o.state.last_verify
        }),
{
    match event {
        Some(EventView::Update { updates }) => {
            lemma_apply_updates_verifications(m, updates, now, account_id);
        },
        Some(EventView::Push { ids, state_change }) => {
            lemma_ingest_all_effect(m, ids, state_change, now, 0);
            let o = m.after_event(event, now);
            assert(!verifies(o.actions, account_id)) by {
                if verifies(o.actions, account_id) {
                    let i = choose|i: int|
                        0 <= i < o.actions.len() && (#[trigger] o.actions[i]).verifies(account_id);
                    assert(o.actions[i] is Deliver);
                }
            }
        },
        _ => {
            assert(!verifies(m.quiet().actions, account_id));
        },
    }
}

/// Whether every subscription without a request in flight has an empty queue
/// exactly if it has no failed attempt.
pub open spec fn settled(m: ManagerView) -> bool {
    forall|id: u64| #[trigger]
        m.subscriptions.contains_key(id) && !m.subscriptions[id].in_flight ==> (
        m.subscriptions[id].state_changes.len() == 0 <==> m.subscriptions[id].num_attempts == 0)
}

/// Whether `event` leaves a subscription with changes queued though it has no
/// failed attempt, or with a failed attempt though nothing is queued: a change
/// for a healthy subscription that has to wait for the throttle, a success
/// report for a subscription that has queued changes while its request was in
/// flight, or a failure report that brings no changes back to an empty queue.
pub open spec fn unsettles(m: ManagerView, event: Option<EventView>, now: u64) -> bool {
    match event {
        Some(EventView::Push { ids, state_change }) => exists|i: int|
            0 <= i < ids.len() && m.subscriptions.contains_key(#[trigger] ids[i])
                && !m.subscriptions[ids[i]].in_flight && m.subscriptions[ids[i]].num_attempts == 0
                && !m.subscriptions[ids[i]].sendable_on_push(m.settings, now),
        Some(EventView::DeliverySuccess { id }) => m.subscriptions.contains_key(id)
            && m.subscriptions[id].state_changes.len() > 0,
        Some(EventView::DeliveryFailure { id, state_changes }) => m.subscriptions.contains_key(id)
            && m.subscriptions[id].state_changes.len() + state_changes.len() == 0,
        _ => false,
    }
}

/// An idle subscription has an empty queue exactly if it has no failed
/// attempt, as long as no event unsettles one: a state in which this holds of
/// every subscription keeps it through any other event and through the retry
/// pass.
pub proof fn law_queue_is_empty_iff_no_attempt_failed(
    m: ManagerView,
    event: Option<EventView>,
    now: u64,
)
    requires
        settled(m),
        !unsettles(m, event, now),
    ensures
        settled(m.after_event(event, now).state),
        settled(m.after_event(event, now).state.after_retry(now)),
{
    let o = m.after_event(event, now);
    assert forall|id: u64| #[trigger]
        o.state.subscriptions.contains_key(id)
            && !o.state.subscriptions[id].in_flight implies (
    o.state.subscriptions[id].state_changes.len() == 0 <==> o.state.subscriptions[id].num_attempts
        == 0) by {
        lemma_event_effect(m, event, now, id);
        match event {
            Some(EventView::Push { ids, state_change }) => {
                lemma_ingest_all_effect(m, ids, state_change, now, id);
                if ids.contains(id) {
                    let i = choose|i: int| 0 <= i < ids.len() && ids[i] == id;
                    assert(m.subscriptions.contains_key(ids[i]));
                }
            },
            Some(EventView::Update { updates }) => {
                lemma_apply_updates_effect(m, updates, now, id);
            },
            _ => {},
        }
    }
    law_retry_keeps_settled(o.state, now);
}

/// The retry pass leaves every subscription it acts on either in flight or
/// with an empty queue and no failed attempt.
pub proof fn law_retry_keeps_settled(m: ManagerView, now: u64)
    requires
        settled(m),
    ensures
        settled(m.after_retry(now)),
{
    let after = m.after_retry(now);
    assert forall|id: u64| #[trigger]
        after.subscriptions.contains_key(id) && !after.subscriptions[id].in_flight implies (
    after.subscriptions[id].state_changes.len() == 0 <==> after.subscriptions[id].num_attempts
        == 0) by {
        assert(m.subscriptions.contains_key(id));
    }
}

/// What the manager is given in one turn of its loop: the event that arrived,
/// or none if the timeout ran out, and the time.
pub struct Input {
    pub event: Option<EventView>,
    pub now: u64,
}

/// The state after one turn: the event is handled, then the retry scheduler
/// runs.
pub open spec fn turn(m: ManagerView, input: Input) -> ManagerView {
    m.after_event(input.event, input.now).state.after_retry(input.now)
}

/// The state after the turns `inputs`, taken in their order.
pub open spec fn run(m: ManagerView, inputs: Seq<Input>) -> ManagerView
    decreases inputs.len(),
{
    if inputs.len() == 0 {
        m
    } else {
        turn(run(m, inputs.drop_last()), inputs.last())
    }
}

/// Whether the times of `inputs` never go back.
pub open spec fn clock_never_goes_back(inputs: Seq<Input>) -> bool {
    forall|i: int, j: int| 0 <= i <= j < inputs.len() ==> inputs[i].now <= inputs[j].now
}

proof fn lemma_run_unfolds(m: ManagerView, inputs: Seq<Input>, k: int)
    requires
        0 <= k < inputs.len(),
    ensures
        run(m, inputs.take(k + 1)) == turn(run(m, inputs.take(k)), inputs[k]),
{
    assert(inputs.take(k + 1).drop_last() =~= inputs.take(k));
    assert(inputs.take(k + 1).last() == inputs[k]);
}

proof fn lemma_run_keeps_settings(m: ManagerView, inputs: Seq<Input>)
    ensures
        run(m, inputs).settings == m.settings,
    decreases inputs.len(),
{
    if inputs.len() > 0 {
        lemma_run_keeps_settings(m, inputs.drop_last());
        lemma_event_effect(run(m, inputs.drop_last()), inputs.last().event, inputs.last().now, 0);
    }
}

/// Along any run in which every failure report answers a request in flight,
/// the attempt count of every subscription stays within the maximum.
pub proof fn law_attempts_bounded_along_run(m: ManagerView, inputs: Seq<Input>)
    requires
        attempts_bounded(m),
        m.settings.push_attempts_max >= 1,
        forall|k: int|
            0 <= k < inputs.len() ==> !is_stray_failure(
                run(m, inputs.take(k)),
                (#[trigger] inputs[k]).event,
            ),
    ensures
        attempts_bounded(run(m, inputs)),
    decreases inputs.len(),
{
    if inputs.len() > 0 {
        let rest = inputs.drop_last();
        assert forall|k: int| 0 <= k < rest.len() implies !is_stray_failure(
            run(m, rest.take(k)),
            (#[trigger] rest[k]).event,
        ) by {
            assert(rest.take(k) =~= inputs.take(k));
            assert(rest[k] == inputs[k]);
        }
        law_attempts_bounded_along_run(m, rest);
        lemma_run_keeps_settings(m, rest);
        let k = inputs.len() - 1;
        assert(inputs.take(k) =~= rest);
        assert(!is_stray_failure(run(m, inputs.take(k)), inputs[k].event));
        law_attempts_never_exceed_maximum(run(m, rest), inputs.last().event, inputs.last().now);
    }
}

proof fn lemma_request_time_is_a_floor(
    m: ManagerView,
    inputs: Seq<Input>,
    i: int,
    k: int,
    id: u64,
)
    requires
        0 <= i < k <= inputs.len(),
        clock_never_goes_back(inputs),
        turn_delivers(run(m, inputs.take(i)), inputs[i].event, inputs[i].now, id),
        forall|n: int| i < n < k ==> !((#[trigger] inputs[n]).event matches Some(e) && removes(e, id)),
    ensures
        run(m, inputs.take(k)).subscriptions.contains_key(id),
        run(m, inputs.take(k)).subscriptions[id].last_request >= inputs[i].now,
    decreases k,
{
    let previous = run(m, inputs.take(k - 1));
    let input = inputs[k - 1];
    lemma_run_unfolds(m, inputs, k - 1);
    let o = previous.after_event(input.event, input.now);
    lemma_event_effect(previous, input.event, input.now, id);
    if k == i + 1 {
        law_one_request_in_flight(previous, input.event, input.now, id);
        law_request_waits_out_the_gap(previous, input.event, input.now, id);
    } else {
        lemma_request_time_is_a_floor(m, inputs, i, k - 1, id);
        assert(!(inputs[k - 1].event matches Some(e) && removes(e, id)));
        assert(inputs[i].now <= inputs[k - 1].now);
        assert(o.state.subscriptions.contains_key(id));
        assert(o.state.subscriptions[id].last_request >= inputs[i].now);
    }
}

/// The gap that the request started for subscription `id` in the turn `input`
/// had to leave: that of the attempt count the subscription had when the
/// request was decided on.
pub open spec fn gap_at(m: ManagerView, input: Input, id: u64) -> u64 {
    let o = m.after_event(input.event, input.now);
    if delivers(o.actions, id) {
        required_gap(m.settings, m.subscriptions[id].num_attempts)
    } else {
        required_gap(m.settings, o.state.subscriptions[id].num_attempts)
    }
}

/// Between two requests to a subscription lies at least the required gap: if
/// the clock never goes back, and a request is started for the subscription in
/// turn `i` and another in a later turn `j`, and the subscription is not
/// removed in between, then the second starts at least the throttle after the
/// first while the subscription is healthy, and at least the attempt interval
/// after it in a retry chain.
pub proof fn law_requests_keep_their_distance(
    m: ManagerView,
    inputs: Seq<Input>,
    i: int,
    j: int,
    id: u64,
)
    requires
        0 <= i < j < inputs.len(),
        clock_never_goes_back(inputs),
        turn_delivers(run(m, inputs.take(i)), inputs[i].event, inputs[i].now, id),
        turn_delivers(run(m, inputs.take(j)), inputs[j].event, inputs[j].now, id),
        forall|n: int|
            i < n <= j ==> !((#[trigger] inputs[n]).event matches Some(e) && removes(e, id)),
    ensures
        inputs[j].now - inputs[i].now >= gap_at(run(m, inputs.take(j)), inputs[j], id),
{
    let at_j = run(m, inputs.take(j));
    lemma_request_time_is_a_floor(m, inputs, i, j, id);
    assert(!(inputs[j].event matches Some(e) && removes(e, id)));
    assert(inputs[i].now <= inputs[j].now);
    lemma_event_effect(at_j, inputs[j].event, inputs[j].now, id);
    law_request_waits_out_the_gap(at_j, inputs[j].event, inputs[j].now, id);
}

proof fn lemma_in_flight_until_reported(
    m: ManagerView,
    inputs: Seq<Input>,
    i: int,
    k: int,
    id: u64,
)
    requires
        0 <= i < k <= inputs.len(),
        turn_delivers(run(m, inputs.take(i)), inputs[i].event, inputs[i].now, id),
        forall|n: int|
            i < n < k ==> !((#[trigger] inputs[n]).event matches Some(e) && (removes(e, id)
                || reports(e, id))),
    ensures
        run(m, inputs.take(k)).subscriptions.contains_key(id),
        run(m, inputs.take(k)).subscriptions[id].in_flight,
    decreases k,
{
    let previous = run(m, inputs.take(k - 1));
    let input = inputs[k - 1];
    lemma_run_unfolds(m, inputs, k - 1);
    lemma_event_effect(previous, input.event, input.now, id);
    if k == i + 1 {
        law_one_request_in_flight(previous, input.event, input.now, id);
    } else {
        lemma_in_flight_until_reported(m, inputs, i, k - 1, id);
        assert(!(inputs[k - 1].event matches Some(e) && (removes(e, id) || reports(e, id))));
    }
}

/// A subscription gets its next request only after the one before was
/// reported: if a request is started for it in turn `i` and another in a later
/// turn `j`, and the subscription is not removed in between, then one of the
/// events after turn `i`, up to and with that of turn `j`, reports how a
/// request of the subscription ended.
pub proof fn law_next_request_follows_a_report(
    m: ManagerView,
    inputs: Seq<Input>,
    i: int,
    j: int,
    id: u64,
)
    requires
        0 <= i < j < inputs.len(),
        turn_delivers(run(m, inputs.take(i)), inputs[i].event, inputs[i].now, id),
        turn_delivers(run(m, inputs.take(j)), inputs[j].event, inputs[j].now, id),
        forall|n: int|
            i < n <= j ==> !((#[trigger] inputs[n]).event matches Some(e) && removes(e, id)),
    ensures
        exists|n: int| i < n <= j && ((#[trigger] inputs[n]).event matches Some(e) && reports(e, id)),
{
    if forall|n: int| i < n <= j ==> !((#[trigger] inputs[n]).event matches Some(e) && reports(e, id)) {
        assert forall|n: int| i < n < j implies !((#[trigger] inputs[n]).event matches Some(e) && (
        removes(e, id) || reports(e, id))) by {
            assert(!(inputs[n].event matches Some(e) && removes(e, id)));
            assert(!(inputs[n].event matches Some(e) && reports(e, id)));
        }
        lemma_in_flight_until_reported(m, inputs, i, j, id);
        let at_j = run(m, inputs.take(j));
        assert(!(inputs[j].event matches Some(e) && removes(e, id)));
        assert(!(inputs[j].event matches Some(e) && reports(e, id)));
        lemma_event_effect(at_j, inputs[j].event, inputs[j].now, id);
        law_one_request_in_flight(at_j, inputs[j].event, inputs[j].now, id);
        assert(false);
    }
}

proof fn lemma_verification_time_is_a_floor(
    m: ManagerView,
    inputs: Seq<Input>,
    i: int,
    k: int,
    account_id: u32,
)
    requires
        0 <= i < k <= inputs.len(),
        clock_never_goes_back(inputs),
        verifies(
            run(m, inputs.take(i)).after_event(inputs[i].event, inputs[i].now).actions,
            account_id,
        ),
    ensures
        run(m, inputs.take(k)).last_verify.contains_key(account_id),
        run(m, inputs.take(k)).last_verify[account_id] >= inputs[i].now,
    decreases k,
{
    let previous = run(m, inputs.take(k - 1));
    let input = inputs[k - 1];
    lemma_run_unfolds(m, inputs, k - 1);
    law_verification_is_rate_limited(previous, input.event, input.now, account_id);
    if k > i + 1 {
        lemma_verification_time_is_a_floor(m, inputs, i, k - 1, account_id);
        assert(inputs[i].now <= inputs[k - 1].now);
    }
}

/// At most one verification request per account and window: if the clock
/// never goes back, two verification requests for one account lie more than the
/// verification window apart.
pub proof fn law_verifications_keep_their_distance(
    m: ManagerView,
    inputs: Seq<Input>,
    i: int,
    j: int,
    account_id: u32,
)
    requires
        0 <= i < j < inputs.len(),
        clock_never_goes_back(inputs),
        verifies(
            run(m, inputs.take(i)).after_event(inputs[i].event, inputs[i].now).actions,
            account_id,
        ),
        verifies(
            run(m, inputs.take(j)).after_event(inputs[j].event, inputs[j].now).actions,
            account_id,
        ),
    ensures
        inputs[j].now - inputs[i].now > m.settings.push_verify_timeout,
{
    let at_j = run(m, inputs.take(j));
    lemma_verification_time_is_a_floor(m, inputs, i, j, account_id);
    lemma_run_keeps_settings(m, inputs.take(j));
    law_verification_is_rate_limited(at_j, inputs[j].event, inputs[j].now, account_id);
}

/// The subscription after the changes `news` were queued one after the other.
pub open spec fn queued_all(s: SubscriptionView, news: Seq<StateChangeView>) -> SubscriptionView
    decreases news.len(),
{
    if news.len() == 0 {
        s
    } else {
        queued_all(s, news.drop_last()).queued(news.last())
    }
}

proof fn lemma_queued_all(s: SubscriptionView, news: Seq<StateChangeView>)
    ensures
        queued_all(s, news).state_changes == s.state_changes + news,
        same_but_queue(queued_all(s, news), s),
    decreases news.len(),
{
    if news.len() == 0 {
        assert(s.state_changes + news =~= s.state_changes);
    } else {
        lemma_queued_all(s, news.drop_last());
        assert((s.state_changes + news.drop_last()).push(news.last()) =~= s.state_changes + news);
    }
}

/// A failed batch comes back behind what was queued in the meantime, new
/// changes queue behind it, and the next request carries all of them in that
/// order. Where the change ids of a cell never go down along that order, as
/// they do where nothing was queued while the request was in flight, the cell
/// of the folded body holds the greatest change id among the failed and the
/// new changes.
pub proof fn law_failed_and_new_changes_fold_to_greatest(
    s: SubscriptionView,
    batch: Seq<StateChangeView>,
    failed_at: u64,
    news: Seq<StateChangeView>,
    id: u64,
    account_id: u32,
    type_state: crate::state_change::TypeState,
)
    requires
        crate::response::ascends(s.state_changes + batch + news, account_id, type_state),
    ensures
        queued_all(s.failed(batch, failed_at), news).delivery(id).state_changes == s.state_changes
            + batch + news,
        crate::response::cell(
            crate::response::fold_changes(
                queued_all(s.failed(batch, failed_at), news).delivery(id).state_changes,
            ),
            account_id,
            type_state,
        ) == crate::response::max_written(s.state_changes + batch + news, account_id, type_state),
{
    lemma_queued_all(s.failed(batch, failed_at), news);
    crate::response::law_fold_yields_greatest(
        s.state_changes + batch + news,
        account_id,
        type_state,
    );
}

} // verus!
