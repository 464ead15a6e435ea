use push_delivery::payload::{
    json_object, state_change_payload, verification_payload, RenderedAccount,
};
use push_delivery::request::{
    build_request, is_delivered, report, try_build_request, PostOutcome, Sealing,
};
use push_delivery::event::Event;
use push_delivery::response::StateChangeResponse;
use push_delivery::state_change::{duplicate_changes, StateChange, TypeState};

#[test]
fn fold_keeps_the_last_change_id_of_each_cell() {
    let changes = vec![
        StateChange::new(1).with_change(TypeState::Email, 3).with_change(TypeState::Mailbox, 4),
        StateChange::new(2).with_change(TypeState::Email, 7),
        StateChange::new(1).with_change(TypeState::Email, 9),
        StateChange::new(1).with_change(TypeState::Thread, 1).with_change(TypeState::Thread, 2),
    ];
    let response = StateChangeResponse::fold(&changes);
    assert_eq!(response.changed.len(), 2);
    assert_eq!(response.changed[0].account_id, 1);
    assert_eq!(
        response.changed[0].types,
        vec![(TypeState::Email, 9), (TypeState::Mailbox, 4), (TypeState::Thread, 2)]
    );
    assert_eq!(response.changed[1].account_id, 2);
    assert_eq!(response.changed[1].types, vec![(TypeState::Email, 7)]);
    assert_eq!(response.get(1, TypeState::Email), Some(9));
    assert_eq!(response.get(2, TypeState::Email), Some(7));
    assert_eq!(response.get(2, TypeState::Mailbox), None);
    assert_eq!(response.get(3, TypeState::Email), None);
}

#[test]
fn fold_of_ascending_ids_is_the_maximum() {
    let ids = [2u64, 2, 5, 8, 13];
    let changes: Vec<StateChange> =
        ids.iter().map(|id| StateChange::new(4).with_change(TypeState::Identity, *id)).collect();
    let response = StateChangeResponse::fold(&changes);
    assert_eq!(response.get(4, TypeState::Identity), ids.iter().copied().max());
}

#[test]
fn fold_of_nothing_is_empty() {
    let response = StateChangeResponse::fold(&Vec::new());
    assert!(response.changed.is_empty());
    let no_types = StateChangeResponse::fold(&vec![StateChange::new(1)]);
    assert!(no_types.changed.is_empty());
    assert!(StateChangeResponse::new().changed.is_empty());
}

#[test]
fn failed_then_new_changes_fold_to_the_maximum() {
    let failed = vec![StateChange::new(1).with_change(TypeState::Email, 5)];
    let new = vec![
        StateChange::new(1).with_change(TypeState::Email, 6),
        StateChange::new(1).with_change(TypeState::Mailbox, 2),
        StateChange::new(1).with_change(TypeState::Email, 8),
    ];
    let mut queue = duplicate_changes(&failed);
    queue.extend(duplicate_changes(&new));
    let response = StateChangeResponse::fold(&queue);
    assert_eq!(response.get(1, TypeState::Email), Some(8));
    assert_eq!(response.get(1, TypeState::Mailbox), Some(2));
}

#[test]
fn duplicate_keeps_account_and_types() {
    let change = StateChange::new(9).with_change(TypeState::EmailDelivery, 1);
    let copy = change.duplicate();
    assert_eq!(copy.account_id, 9);
    assert_eq!(copy.types, vec![(TypeState::EmailDelivery, 1)]);
}

#[test]
fn set_replaces_in_place() {
    let mut response = StateChangeResponse::new();
    response.set(1, TypeState::Email, 1);
    response.set(2, TypeState::Email, 2);
    response.set(1, TypeState::Mailbox, 3);
    response.set(1, TypeState::Email, 4);
    assert_eq!(response.changed[0].types, vec![(TypeState::Email, 4), (TypeState::Mailbox, 3)]);
    assert_eq!(response.changed[1].types, vec![(TypeState::Email, 2)]);
}

#[test]
fn type_names() {
    assert_eq!(TypeState::Email.name(), "Email");
    assert_eq!(TypeState::EmailDelivery.name(), "EmailDelivery");
    assert_eq!(TypeState::EmailSubmission.name(), "EmailSubmission");
    assert_eq!(TypeState::Mailbox.name(), "Mailbox");
    assert_eq!(TypeState::Thread.name(), "Thread");
    assert_eq!(TypeState::Identity.name(), "Identity");
}

#[test]
fn state_change_payload_of_two_accounts() {
    let changed = vec![
        RenderedAccount {
            account: "b".to_string(),
            types: vec![(TypeState::Mailbox, "f".to_string()), (TypeState::Email, "l".to_string())],
        },
        RenderedAccount { account: "c".to_string(), types: vec![(TypeState::Thread, "a".to_string())] },
    ];
    assert_eq!(
        state_change_payload(&changed),
        "{\"changed\":{\"b\":{\"Mailbox\":\"f\",\"Email\":\"l\"},\"c\":{\"Thread\":\"a\"}}}"
    );
}

#[test]
fn state_change_payload_of_nothing() {
    assert_eq!(state_change_payload(&Vec::new()), "{\"changed\":{}}");
    let empty_account = vec![RenderedAccount { account: "b".to_string(), types: Vec::new() }];
    assert_eq!(state_change_payload(&empty_account), "{\"changed\":{\"b\":{}}}");
}

#[test]
fn state_change_payload_quotes_its_texts() {
    let changed = vec![RenderedAccount {
        account: "a\"b".to_string(),
        types: vec![(TypeState::Email, "x\\y\n".to_string())],
    }];
    assert_eq!(
        state_change_payload(&changed),
        "{\"changed\":{\"a\\\"b\":{\"Email\":\"x\\\\y\\n\"}}}"
    );
}

#[test]
fn json_object_writes_members_as_they_stand() {
    assert_eq!(json_object(&Vec::new()), "{}");
    let members = vec![
        ("\"a\"".to_string(), "1".to_string()),
        ("\"b\"".to_string(), "{}".to_string()),
        ("\"c\"".to_string(), "\"x\"".to_string()),
    ];
    assert_eq!(json_object(&members), "{\"a\":1,\"b\":{},\"c\":\"x\"}");
}

#[test]
fn verification_payload_text() {
    assert_eq!(
        verification_payload("h", "da39a3ee"),
        "{\"@type\":\"PushVerification\",\"pushSubscriptionId\":\"h\",\"verificationCode\":\"da39a3ee\"}"
    );
    assert_eq!(
        verification_payload("", ""),
        "{\"@type\":\"PushVerification\",\"pushSubscriptionId\":\"\",\"verificationCode\":\"\"}"
    );
}

#[test]
fn sealed_body_is_url_safe_base64_with_padding() {
    let cases: [(&[u8], &str); 5] = [
        (b"", ""),
        (b"f", "Zg=="),
        (b"fo", "Zm8="),
        (b"foo", "Zm9v"),
        (&[0xff, 0xef, 0xfe], "_-_-"),
    ];
    for (bytes, text) in cases {
        let request = build_request(
            "http://s".to_string(),
            "ignored".to_string(),
            Sealing::Sealed(bytes.to_vec()),
            1,
        )
        .expect("posted");
        assert_eq!(request.body, text);
        let tried = try_build_request(
            "http://s".to_string(),
            "ignored".to_string(),
            Sealing::Sealed(bytes.to_vec()),
            1,
        )
        .expect("posted");
        assert_eq!(tried.body, text);
        assert_eq!(tried.headers.len(), 3);
    }
}

#[test]
fn try_build_request_without_encryption() {
    let plain =
        try_build_request("http://s".to_string(), "{}".to_string(), Sealing::Plain, 5).expect("posted");
    assert_eq!(plain.body, "{}");
    assert_eq!(plain.headers.len(), 2);
    assert_eq!(plain.timeout, 5);
    assert!(try_build_request("http://s".to_string(), "{}".to_string(), Sealing::Failed, 5).is_none());
}

#[test]
fn success_is_a_status_from_200_to_299() {
    assert!(!is_delivered(PostOutcome::Status(199)));
    assert!(is_delivered(PostOutcome::Status(200)));
    assert!(is_delivered(PostOutcome::Status(204)));
    assert!(is_delivered(PostOutcome::Status(299)));
    assert!(!is_delivered(PostOutcome::Status(300)));
    assert!(!is_delivered(PostOutcome::Status(404)));
    assert!(!is_delivered(PostOutcome::Status(503)));
    assert!(!is_delivered(PostOutcome::NoAnswer));
    assert!(is_delivered(PostOutcome::NotPosted));
}

#[test]
fn report_returns_the_batch_on_failure() {
    let batch = vec![StateChange::new(1).with_change(TypeState::Email, 5)];
    match report(3, PostOutcome::NoAnswer, batch) {
        Event::DeliveryFailure { id, state_changes } => {
            assert_eq!(id, 3);
            assert_eq!(state_changes.len(), 1);
            assert_eq!(state_changes[0].account_id, 1);
            assert_eq!(state_changes[0].types, vec![(TypeState::Email, 5)]);
        }
        other => panic!("expected a failure, got {:?}", other),
    }
    assert!(matches!(report(3, PostOutcome::Status(201), Vec::new()), Event::DeliverySuccess { id: 3 }));
}
