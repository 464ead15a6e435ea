use push_delivery::clock::{LONG_SLUMBER, MILLISECOND, SECOND};
use push_delivery::event::{Action, Event, PushUpdate};
use push_delivery::manager::Manager;
use push_delivery::settings::Settings;
use push_delivery::state_change::{StateChange, TypeState};

const T0: u64 = 5_000 * SECOND;

fn registered(ids: &[u64]) -> Manager {
    let mut manager = Manager::new(Settings::standard(), T0);
    let updates = ids
        .iter()
        .map(|id| PushUpdate::Register { id: *id, url: format!("http://s/{}", id), keys: None })
        .collect();
    manager.handle_event(Event::Update { updates }, T0);
    manager
}

fn change(account: u32, change_id: u64) -> StateChange {
    StateChange::new(account).with_change(TypeState::Email, change_id)
}

fn push_to(ids: &[u64], change_id: u64) -> Event {
    Event::Push { ids: ids.to_vec(), state_change: change(1, change_id) }
}

fn delivered_ids(actions: &[Action]) -> Vec<u64> {
    actions
        .iter()
        .map(|a| match a {
            Action::Deliver(d) => d.id,
            Action::Verify(v) => panic!("unexpected verification {:?}", v),
        })
        .collect()
}

#[test]
fn new_manager_is_empty() {
    let manager = Manager::new(Settings::standard(), T0);
    assert!(manager.subscription(1).is_none());
    assert!(manager.pending_retries().is_empty());
    assert_eq!(manager.last_retry(), T0);
    assert_eq!(manager.last_verified(1), None);
    assert_eq!(manager.settings().push_attempts_max, 3);
}

#[test]
fn standard_settings() {
    let settings = Settings::standard();
    assert_eq!(settings.push_attempt_interval, 60 * SECOND);
    assert_eq!(settings.push_attempts_max, 3);
    assert_eq!(settings.push_retry_interval, SECOND);
    assert_eq!(settings.push_timeout, 10 * SECOND);
    assert_eq!(settings.push_verify_timeout, 60 * SECOND);
    assert_eq!(settings.push_throttle, SECOND);
}

#[test]
fn registration_dates_the_latest_request_beyond_the_throttle() {
    let manager = registered(&[7]);
    let sub = manager.subscription(7).expect("registered");
    assert_eq!(sub.url, "http://s/7");
    assert_eq!(sub.num_attempts, 0);
    assert!(!sub.in_flight);
    assert!(sub.state_changes.is_empty());
    assert_eq!(sub.last_request, T0 as i128 - (SECOND as i128 + MILLISECOND as i128));
}

#[test]
fn registration_before_the_clock_has_run_for_the_throttle() {
    let mut manager = Manager::new(Settings::standard(), 0);
    manager.handle_event(
        Event::Update {
            updates: vec![PushUpdate::Register { id: 7, url: "u".to_string(), keys: None }],
        },
        0,
    );
    assert_eq!(
        manager.subscription(7).expect("registered").last_request,
        -(SECOND as i128) - MILLISECOND as i128
    );
    let actions = manager.handle_event(push_to(&[7], 1), 0);
    assert_eq!(delivered_ids(&actions), vec![7]);
}

#[test]
fn register_is_idempotent() {
    let mut manager = registered(&[7]);
    manager.handle_event(push_to(&[7], 1), T0);
    manager.handle_event(push_to(&[7], 2), T0 + 1);
    let again = Event::Update {
        updates: vec![PushUpdate::Register { id: 7, url: "http://other".to_string(), keys: None }],
    };
    assert!(manager.handle_event(again, T0 + 5 * SECOND).is_empty());
    let sub = manager.subscription(7).expect("registered");
    assert_eq!(sub.url, "http://s/7");
    assert!(sub.in_flight);
    assert_eq!(sub.state_changes.len(), 1);
    assert_eq!(sub.last_request, T0 as i128);
}

#[test]
fn one_request_in_flight() {
    let mut manager = registered(&[7]);
    let first = manager.handle_event(push_to(&[7, 7], 1), T0);
    assert_eq!(delivered_ids(&first), vec![7]);
    match &first[0] {
        Action::Deliver(d) => assert_eq!(d.state_changes.len(), 1),
        other => panic!("expected a delivery, got {:?}", other),
    }
    assert_eq!(manager.subscription(7).expect("registered").state_changes.len(), 1);
    assert!(manager.handle_event(push_to(&[7], 2), T0 + 10 * SECOND).is_empty());
    let pass = manager.schedule_retries(T0 + 100 * SECOND);
    assert!(pass.deliveries.is_empty());
    assert_eq!(pass.retry_timeout, SECOND);
    assert_eq!(manager.last_retry(), T0 + 100 * SECOND);
    assert_eq!(manager.pending_retries(), vec![7]);
}

#[test]
fn throttle_boundary() {
    let mut manager = registered(&[7]);
    let first = manager.handle_event(push_to(&[7], 1), T0);
    assert_eq!(first.len(), 1);
    manager.handle_event(Event::DeliverySuccess { id: 7 }, T0 + 1);

    let exactly = T0 + SECOND;
    assert!(manager.handle_event(push_to(&[7], 2), exactly).is_empty());
    let pass = manager.schedule_retries(exactly);
    assert_eq!(pass.deliveries.len(), 1);
    assert_eq!(pass.deliveries[0].id, 7);
    assert_eq!(pass.retry_timeout, LONG_SLUMBER);
}

#[test]
fn just_past_the_throttle_sends_at_once() {
    let mut manager = registered(&[7]);
    manager.handle_event(push_to(&[7], 1), T0);
    manager.handle_event(Event::DeliverySuccess { id: 7 }, T0 + 1);
    let actions = manager.handle_event(push_to(&[7], 2), T0 + SECOND + 1);
    assert_eq!(delivered_ids(&actions), vec![7]);
    assert!(manager.pending_retries().is_empty());
}

#[test]
fn last_attempt_then_abandon() {
    let mut manager = registered(&[7]);
    let mut now = T0;
    let first = manager.handle_event(push_to(&[7], 1), now);
    let mut batch = match first.into_iter().next() {
        Some(Action::Deliver(d)) => d.state_changes,
        other => panic!("expected a delivery, got {:?}", other),
    };
    for _ in 0..2 {
        manager.handle_event(Event::DeliveryFailure { id: 7, state_changes: batch }, now);
        now += 60 * SECOND;
        let pass = manager.schedule_retries(now);
        assert_eq!(pass.deliveries.len(), 1);
        batch = pass.deliveries.into_iter().next().expect("one delivery").state_changes;
    }
    assert_eq!(manager.subscription(7).expect("registered").num_attempts, 2);
    assert!(manager.subscription(7).expect("registered").in_flight);

    manager.handle_event(Event::DeliveryFailure { id: 7, state_changes: batch }, now);
    assert_eq!(manager.subscription(7).expect("registered").num_attempts, 3);

    let pass = manager.schedule_retries(now + 60 * SECOND);
    assert!(pass.deliveries.is_empty());
    let sub = manager.subscription(7).expect("registered");
    assert_eq!(sub.num_attempts, 0);
    assert!(sub.state_changes.is_empty());
}

#[test]
fn a_push_in_a_retry_chain_waits_for_the_attempt_interval() {
    let mut manager = registered(&[7]);
    let first = manager.handle_event(push_to(&[7], 1), T0);
    let batch = match first.into_iter().next() {
        Some(Action::Deliver(d)) => d.state_changes,
        other => panic!("expected a delivery, got {:?}", other),
    };
    manager.handle_event(Event::DeliveryFailure { id: 7, state_changes: batch }, T0);
    assert!(manager.handle_event(push_to(&[7], 2), T0 + 60 * SECOND).is_empty());
    let actions = manager.handle_event(push_to(&[7], 3), T0 + 60 * SECOND + 1);
    assert_eq!(actions.len(), 1);
    match &actions[0] {
        Action::Deliver(d) => {
            let ids: Vec<u64> = d.state_changes.iter().map(|c| c.types[0].1).collect();
            assert_eq!(ids, vec![1, 2, 3]);
        }
        other => panic!("expected a delivery, got {:?}", other),
    }
}

#[test]
fn failed_batch_goes_behind_what_was_queued_in_flight() {
    let mut manager = registered(&[7]);
    let first = manager.handle_event(push_to(&[7], 1), T0);
    let batch = match first.into_iter().next() {
        Some(Action::Deliver(d)) => d.state_changes,
        other => panic!("expected a delivery, got {:?}", other),
    };
    manager.handle_event(push_to(&[7], 2), T0 + 1);
    manager.handle_event(Event::DeliveryFailure { id: 7, state_changes: batch }, T0 + 2);
    let sub = manager.subscription(7).expect("registered");
    let ids: Vec<u64> = sub.state_changes.iter().map(|c| c.types[0].1).collect();
    assert_eq!(ids, vec![2, 1]);
    assert_eq!(sub.last_request, (T0 + 2) as i128);
    assert_eq!(sub.num_attempts, 1);
    assert!(!sub.in_flight);
    assert_eq!(manager.pending_retries(), vec![7]);
}

#[test]
fn unregister_during_flight_drops_the_report() {
    let mut manager = registered(&[7, 8]);
    let first = manager.handle_event(push_to(&[7], 1), T0);
    let batch = match first.into_iter().next() {
        Some(Action::Deliver(d)) => d.state_changes,
        other => panic!("expected a delivery, got {:?}", other),
    };
    manager.handle_event(
        Event::Update { updates: vec![PushUpdate::Unregister { id: 7 }] },
        T0 + 1,
    );
    assert!(manager.subscription(7).is_none());
    assert!(manager.handle_event(Event::DeliverySuccess { id: 7 }, T0 + 2).is_empty());
    assert!(manager
        .handle_event(Event::DeliveryFailure { id: 7, state_changes: batch }, T0 + 3)
        .is_empty());
    assert!(manager.subscription(7).is_none());
    assert!(manager.subscription(8).is_some());
    assert!(manager.pending_retries().is_empty());
}

#[test]
fn push_to_an_unknown_id_is_skipped() {
    let mut manager = registered(&[7]);
    let actions = manager.handle_event(push_to(&[99, 7, 98], 1), T0);
    assert_eq!(delivered_ids(&actions), vec![7]);
    assert!(manager.subscription(99).is_none());
    assert!(manager.pending_retries().is_empty());
}

#[test]
fn reset_keeps_verification_times() {
    let mut manager = registered(&[7, 8]);
    manager.handle_event(
        Event::Update {
            updates: vec![PushUpdate::Verify {
                id: 7,
                account_id: 42,
                url: "http://s/v".to_string(),
                code: "c".to_string(),
                keys: None,
            }],
        },
        T0,
    );
    manager.handle_event(push_to(&[7], 1), T0);
    manager.handle_event(push_to(&[7], 2), T0 + 1);
    assert_eq!(manager.pending_retries(), vec![7]);

    assert!(manager.handle_event(Event::Reset, T0 + 2).is_empty());
    assert!(manager.subscription(7).is_none());
    assert!(manager.subscription(8).is_none());
    assert_eq!(manager.last_verified(42), Some(T0));
    assert_eq!(manager.pending_retries(), vec![7]);

    let pass = manager.schedule_retries(T0 + 2 * SECOND);
    assert!(pass.deliveries.is_empty());
    assert_eq!(pass.retry_timeout, LONG_SLUMBER);
    assert!(manager.pending_retries().is_empty());
    assert_eq!(manager.last_retry(), T0);
}

#[test]
fn retry_pass_acts_on_each_due_subscription_once() {
    let mut manager = registered(&[1, 2, 3]);
    manager.handle_event(push_to(&[1, 2, 3], 1), T0);
    for id in [1, 2, 3] {
        manager.handle_event(Event::DeliverySuccess { id }, T0 + 1);
    }
    manager.handle_event(push_to(&[1, 2], 2), T0 + 2);
    manager.handle_event(push_to(&[3], 2), T0 + 3);
    manager.handle_event(push_to(&[3], 3), T0 + 4);
    let mut pending = manager.pending_retries();
    pending.sort();
    assert_eq!(pending, vec![1, 2, 3]);

    let pass = manager.schedule_retries(T0 + SECOND + 1);
    let mut ids: Vec<u64> = pass.deliveries.iter().map(|d| d.id).collect();
    ids.sort();
    assert_eq!(ids, vec![1, 2, 3]);
    for delivery in &pass.deliveries {
        let expected = if delivery.id == 3 { 2 } else { 1 };
        assert_eq!(delivery.state_changes.len(), expected);
        assert_eq!(delivery.url, format!("http://s/{}", delivery.id));
    }
    assert_eq!(pass.retry_timeout, LONG_SLUMBER);
    assert!(manager.pending_retries().is_empty());
}

#[test]
fn retry_timeout_counts_down_to_the_next_pass() {
    let mut manager = registered(&[7]);
    manager.handle_event(push_to(&[7], 1), T0);
    manager.handle_event(push_to(&[7], 2), T0 + 1);
    let pass = manager.schedule_retries(T0 + 300 * MILLISECOND);
    assert!(pass.deliveries.is_empty());
    assert_eq!(pass.retry_timeout, 700 * MILLISECOND);
    assert_eq!(manager.last_retry(), T0);
}

#[test]
fn step_handles_the_event_and_then_retries() {
    let mut manager = registered(&[7]);
    let turn = manager.step(Some(push_to(&[7], 1)), T0);
    assert_eq!(delivered_ids(&turn.actions), vec![7]);
    assert!(turn.retries.is_empty());
    assert_eq!(turn.retry_timeout, LONG_SLUMBER);

    let turn = manager.step(Some(push_to(&[7], 2)), T0 + 1);
    assert!(turn.actions.is_empty());
    assert!(turn.retries.is_empty());
    assert_eq!(turn.retry_timeout, SECOND - 1);

    let turn = manager.step(Some(Event::DeliverySuccess { id: 7 }), T0 + 2 * SECOND);
    assert!(turn.actions.is_empty());
    assert!(turn.retries.is_empty());
    assert_eq!(turn.retry_timeout, LONG_SLUMBER);

    let turn = manager.step(None, T0 + 3 * SECOND);
    assert!(turn.actions.is_empty());
    assert!(turn.retries.is_empty());
    assert_eq!(turn.retry_timeout, LONG_SLUMBER);
}

#[test]
fn idle_subscription_has_empty_queue_iff_no_attempt_failed() {
    let mut manager = registered(&[7]);
    let first = manager.handle_event(push_to(&[7], 1), T0);
    let batch = match first.into_iter().next() {
        Some(Action::Deliver(d)) => d.state_changes,
        other => panic!("expected a delivery, got {:?}", other),
    };
    manager.handle_event(Event::DeliveryFailure { id: 7, state_changes: batch }, T0 + 1);
    {
        let sub = manager.subscription(7).expect("registered");
        assert!(!sub.in_flight);
        assert_eq!(sub.num_attempts, 1);
        assert!(!sub.state_changes.is_empty());
    }
    let pass = manager.schedule_retries(T0 + 61 * SECOND);
    let batch = pass.deliveries.into_iter().next().expect("one delivery").state_changes;
    assert_eq!(batch.len(), 1);
    manager.handle_event(Event::DeliverySuccess { id: 7 }, T0 + 62 * SECOND);
    let sub = manager.subscription(7).expect("registered");
    assert!(!sub.in_flight);
    assert_eq!(sub.num_attempts, 0);
    assert!(sub.state_changes.is_empty());
}

#[test]
fn attempts_stay_within_the_maximum() {
    let mut manager = registered(&[7]);
    let mut now = T0;
    let mut actions = manager.handle_event(push_to(&[7], 1), now);
    for round in 0..10u64 {
        let batch = match actions.pop() {
            Some(Action::Deliver(d)) => d.state_changes,
            _ => Vec::new(),
        };
        if manager.subscription(7).expect("registered").in_flight {
            manager.handle_event(Event::DeliveryFailure { id: 7, state_changes: batch }, now);
        }
        assert!(manager.subscription(7).expect("registered").num_attempts <= 3);
        now += 61 * SECOND;
        let pass = manager.schedule_retries(now);
        actions = pass.deliveries.into_iter().map(Action::Deliver).collect();
        assert!(manager.subscription(7).expect("registered").num_attempts <= 3);
        if actions.is_empty() {
            actions = manager.handle_event(push_to(&[7], 10 + round), now);
        }
    }
}
