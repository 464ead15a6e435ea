use push_delivery::clock::{LONG_SLUMBER, MILLISECOND, SECOND};
use push_delivery::event::{Action, Event, PushUpdate};
use push_delivery::manager::Manager;
use push_delivery::payload::{state_change_payload, RenderedAccount};
use push_delivery::request::{build_request, is_delivered, report, PostOutcome, Sealing};
use push_delivery::response::StateChangeResponse;
use push_delivery::settings::Settings;
use push_delivery::state_change::{StateChange, TypeState};
use push_delivery::subscription::{Delivery, EncryptionKeys};

const START: u64 = 1_000 * SECOND;

fn register(id: u64, url: &str) -> Event {
    Event::Update {
        updates: vec![PushUpdate::Register { id, url: url.to_string(), keys: None }],
    }
}

fn push(id: u64, account: u32, type_state: TypeState, change_id: u64) -> Event {
    Event::Push {
        ids: vec![id],
        state_change: StateChange::new(account).with_change(type_state, change_id),
    }
}

fn only_delivery(actions: Vec<Action>) -> Delivery {
    assert_eq!(actions.len(), 1);
    match actions.into_iter().next() {
        Some(Action::Deliver(delivery)) => delivery,
        other => panic!("expected one delivery, got {:?}", other),
    }
}

fn body_of(delivery: &Delivery) -> String {
    let response = StateChangeResponse::fold(&delivery.state_changes);
    let rendered: Vec<RenderedAccount> = response
        .changed
        .iter()
        .map(|account| RenderedAccount {
            account: account.account_id.to_string(),
            types: account.types.iter().map(|(t, c)| (*t, c.to_string())).collect(),
        })
        .collect();
    state_change_payload(&rendered)
}

#[test]
fn happy_path() {
    let mut manager = Manager::new(Settings::standard(), START);
    assert!(manager.handle_event(register(7, "http://s/ok"), START).is_empty());

    let at = START + 50 * MILLISECOND;
    let delivery = only_delivery(manager.handle_event(push(7, 42, TypeState::Mailbox, 5), at));
    assert_eq!(delivery.id, 7);
    assert_eq!(delivery.url, "http://s/ok");
    assert!(delivery.keys.is_none());
    let body = body_of(&delivery);
    assert_eq!(body, "{\"changed\":{\"42\":{\"Mailbox\":\"5\"}}}");

    let request = build_request(delivery.url.clone(), body, Sealing::Plain, 10 * SECOND)
        .expect("a plain body is always posted");
    assert_eq!(request.url, "http://s/ok");
    assert_eq!(
        request.headers,
        vec![
            ("Content-Type".to_string(), "application/json".to_string()),
            ("TTL".to_string(), "86400".to_string()),
        ]
    );
    assert_eq!(request.body, "{\"changed\":{\"42\":{\"Mailbox\":\"5\"}}}");
    assert_eq!(request.timeout, 10 * SECOND);

    {
        let sub = manager.subscription(7).expect("registered");
        assert!(sub.in_flight);
        assert!(sub.state_changes.is_empty());
    }
    let answer = report(7, PostOutcome::Status(200), delivery.state_changes);
    assert!(matches!(answer, Event::DeliverySuccess { id: 7 }));
    assert!(manager.handle_event(answer, at + 20 * MILLISECOND).is_empty());
    let sub = manager.subscription(7).expect("registered");
    assert_eq!(sub.num_attempts, 0);
    assert!(sub.state_changes.is_empty());
    assert!(!sub.in_flight);
}

#[test]
fn coalesce_during_throttle() {
    let mut manager = Manager::new(Settings::standard(), START);
    manager.handle_event(register(7, "http://s/ok"), START);

    let first = only_delivery(
        manager.handle_event(push(7, 42, TypeState::Mailbox, 5), START + 10 * MILLISECOND),
    );
    assert_eq!(body_of(&first), "{\"changed\":{\"42\":{\"Mailbox\":\"5\"}}}");
    manager.handle_event(
        report(7, PostOutcome::Status(200), first.state_changes),
        START + 20 * MILLISECOND,
    );

    let second = manager.handle_event(push(7, 42, TypeState::Mailbox, 9), START + 40 * MILLISECOND);
    assert!(second.is_empty());
    let third = manager.handle_event(push(7, 42, TypeState::Email, 11), START + 80 * MILLISECOND);
    assert!(third.is_empty());
    assert_eq!(manager.pending_retries(), vec![7]);
    assert_eq!(manager.subscription(7).expect("registered").state_changes.len(), 2);

    let early = manager.schedule_retries(START + 500 * MILLISECOND);
    assert!(early.deliveries.is_empty());
    assert_eq!(early.retry_timeout, 500 * MILLISECOND);

    let pass = manager.schedule_retries(START + 10 * MILLISECOND + SECOND);
    assert_eq!(pass.deliveries.len(), 1);
    assert_eq!(pass.retry_timeout, LONG_SLUMBER);
    assert_eq!(
        body_of(&pass.deliveries[0]),
        "{\"changed\":{\"42\":{\"Mailbox\":\"9\",\"Email\":\"11\"}}}"
    );
    assert!(manager.pending_retries().is_empty());
}

#[test]
fn retry_then_success() {
    let mut manager = Manager::new(Settings::standard(), START);
    manager.handle_event(register(7, "http://s/flaky"), START);

    let first = only_delivery(manager.handle_event(push(7, 42, TypeState::Mailbox, 5), START));
    let failed_at = START + 10 * MILLISECOND;
    manager.handle_event(report(7, PostOutcome::Status(503), first.state_changes), failed_at);
    assert_eq!(manager.subscription(7).expect("registered").num_attempts, 1);
    assert_eq!(manager.subscription(7).expect("registered").state_changes.len(), 1);

    let too_soon = manager.schedule_retries(START + 30 * SECOND);
    assert!(too_soon.deliveries.is_empty());
    assert_eq!(too_soon.retry_timeout, SECOND);

    let second_at = failed_at + 60 * SECOND;
    let second = manager.schedule_retries(second_at);
    assert_eq!(second.deliveries.len(), 1);
    let second = second.deliveries.into_iter().next().expect("one delivery");
    assert_eq!(body_of(&second), "{\"changed\":{\"42\":{\"Mailbox\":\"5\"}}}");
    let failed_again = second_at + 10 * MILLISECOND;
    manager.handle_event(report(7, PostOutcome::Status(503), second.state_changes), failed_again);
    assert_eq!(manager.subscription(7).expect("registered").num_attempts, 2);

    let third = manager.schedule_retries(failed_again + 60 * SECOND);
    assert_eq!(third.deliveries.len(), 1);
    let third = third.deliveries.into_iter().next().expect("one delivery");
    manager.handle_event(
        report(7, PostOutcome::Status(200), third.state_changes),
        failed_again + 61 * SECOND,
    );
    let sub = manager.subscription(7).expect("registered");
    assert_eq!(sub.num_attempts, 0);
    assert!(sub.state_changes.is_empty());
    assert!(!sub.in_flight);
}

#[test]
fn exhaustion() {
    let mut manager = Manager::new(Settings::standard(), START);
    manager.handle_event(register(7, "http://s/down"), START);

    let mut now = START;
    let mut delivery = only_delivery(manager.handle_event(push(7, 42, TypeState::Mailbox, 5), now));
    for attempt in 1..=3u32 {
        now += 10 * MILLISECOND;
        manager.handle_event(report(7, PostOutcome::Status(500), delivery.state_changes), now);
        assert_eq!(manager.subscription(7).expect("registered").num_attempts, attempt);
        if attempt == 3 {
            break;
        }
        now += 60 * SECOND;
        let pass = manager.schedule_retries(now);
        assert_eq!(pass.deliveries.len(), 1);
        delivery = pass.deliveries.into_iter().next().expect("one delivery");
        expect_subscription_seven(&delivery);
    }

    let soon = manager.schedule_retries(now + SECOND);
    assert!(soon.deliveries.is_empty());
    assert_eq!(manager.subscription(7).expect("registered").num_attempts, 3);

    let pass = manager.schedule_retries(now + 60 * SECOND);
    assert!(pass.deliveries.is_empty());
    assert_eq!(pass.retry_timeout, LONG_SLUMBER);
    {
        let sub = manager.subscription(7).expect("still registered");
        assert_eq!(sub.num_attempts, 0);
        assert!(sub.state_changes.is_empty());
        assert!(!sub.in_flight);
    }
    assert!(manager.pending_retries().is_empty());

    let fresh = only_delivery(
        manager.handle_event(push(7, 42, TypeState::Mailbox, 6), now + 200 * SECOND),
    );
    assert_eq!(body_of(&fresh), "{\"changed\":{\"42\":{\"Mailbox\":\"6\"}}}");
}

fn expect_subscription_seven(delivery: &Delivery) {
    assert_eq!(delivery.id, 7);
}

fn verify(id: u64, account_id: u32) -> Event {
    Event::Update {
        updates: vec![PushUpdate::Verify {
            id,
            account_id,
            url: "http://s/verify".to_string(),
            code: "abc".to_string(),
            keys: None,
        }],
    }
}

#[test]
fn verification_rate_limit() {
    let mut manager = Manager::new(Settings::standard(), START);
    let first = manager.handle_event(verify(1, 42), START);
    assert_eq!(first.len(), 1);
    match &first[0] {
        Action::Verify(v) => {
            assert_eq!(v.id, 1);
            assert_eq!(v.account_id, 42);
            assert_eq!(v.url, "http://s/verify");
            assert_eq!(v.code, "abc");
        }
        other => panic!("expected a verification, got {:?}", other),
    }
    assert_eq!(manager.last_verified(42), Some(START));

    let second = manager.handle_event(verify(2, 42), START + 30 * SECOND);
    assert!(second.is_empty());
    assert_eq!(manager.last_verified(42), Some(START));

    let third = manager.handle_event(verify(3, 42), START + 70 * SECOND);
    assert_eq!(third.len(), 1);
    assert_eq!(manager.last_verified(42), Some(START + 70 * SECOND));

    let other_account = manager.handle_event(verify(4, 43), START + 71 * SECOND);
    assert_eq!(other_account.len(), 1);
}

#[test]
fn verification_at_the_window_is_dropped() {
    let mut manager = Manager::new(Settings::standard(), START);
    assert_eq!(manager.handle_event(verify(1, 42), START).len(), 1);
    assert!(manager.handle_event(verify(1, 42), START + 60 * SECOND).is_empty());
    assert_eq!(manager.handle_event(verify(1, 42), START + 60 * SECOND + 1).len(), 1);
}

#[test]
fn encryption_path() {
    let mut manager = Manager::new(Settings::standard(), START);
    let keys = EncryptionKeys { p256dh: vec![4, 1, 2, 3], auth: vec![9, 8, 7] };
    manager.handle_event(
        Event::Update {
            updates: vec![PushUpdate::Register {
                id: 7,
                url: "http://s/sealed".to_string(),
                keys: Some(keys),
            }],
        },
        START,
    );
    let delivery = only_delivery(manager.handle_event(push(7, 42, TypeState::Mailbox, 5), START));
    let delivered_keys = delivery.keys.as_ref().expect("keys travel with the delivery");
    assert_eq!(delivered_keys.p256dh, vec![4, 1, 2, 3]);
    assert_eq!(delivered_keys.auth, vec![9, 8, 7]);

    let sealed = build_request(
        delivery.url.clone(),
        body_of(&delivery),
        Sealing::Sealed(vec![0xfb, 0xff, 0xbe, 0x01]),
        10 * SECOND,
    )
    .expect("an encrypted body is posted");
    assert_eq!(sealed.body, "-_--AQ==");
    assert_eq!(
        sealed.headers,
        vec![
            ("Content-Type".to_string(), "application/json".to_string()),
            ("TTL".to_string(), "86400".to_string()),
            ("Content-Encoding".to_string(), "aes128gcm".to_string()),
        ]
    );

    let failed = build_request(
        delivery.url.clone(),
        body_of(&delivery),
        Sealing::Failed,
        10 * SECOND,
    );
    assert!(failed.is_none());
    assert!(is_delivered(PostOutcome::NotPosted));
    let answer = report(7, PostOutcome::NotPosted, delivery.state_changes);
    assert!(matches!(answer, Event::DeliverySuccess { id: 7 }));
    manager.handle_event(answer, START + SECOND);
    let sub = manager.subscription(7).expect("registered");
    assert_eq!(sub.num_attempts, 0);
    assert!(!sub.in_flight);
    assert!(manager.pending_retries().is_empty());
}
