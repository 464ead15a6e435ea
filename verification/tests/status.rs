use push_delivery::status::{
    complete, counted, is_shared_folder, unselectable_status, MailboxState, Status, StatusItemType,
};
use push_delivery::text::{characters, same_characters};

const ALL: [Status; 9] = [
    Status::Messages,
    Status::UidNext,
    Status::UidValidity,
    Status::Unseen,
    Status::Deleted,
    Status::Size,
    Status::HighestModSeq,
    Status::MailboxId,
    Status::Recent,
];

fn number(answer: &StatusItemType) -> u64 {
    match answer {
        StatusItemType::Number(n) => *n,
        StatusItemType::String(s) => panic!("expected a number, got {:?}", s),
    }
}

#[test]
fn unselectable_mailbox_is_empty() {
    let answers = unselectable_status(&ALL.to_vec());
    assert_eq!(answers.len(), 9);
    for (k, (item, answer)) in answers.iter().enumerate() {
        assert_eq!(*item, ALL[k]);
        match item {
            Status::UidNext | Status::UidValidity => assert_eq!(number(answer), 1),
            Status::MailboxId => {
                assert!(matches!(answer, StatusItemType::String(s) if s == "none"))
            }
            _ => assert_eq!(number(answer), 0),
        }
    }
    assert!(unselectable_status(&Vec::new()).is_empty());
}

#[test]
fn counted_items() {
    let yes: Vec<bool> = ALL.iter().map(|item| counted(*item)).collect();
    assert_eq!(yes, vec![true, true, true, true, true, true, false, false, false]);
}

#[test]
fn plan_of_an_unknown_mailbox() {
    let state = MailboxState::new();
    let plan = state.plan(&ALL.to_vec(), 77, "abc");
    let answered: Vec<Status> = plan.answered.iter().map(|(item, _)| *item).collect();
    assert_eq!(answered, vec![Status::HighestModSeq, Status::MailboxId, Status::Recent]);
    assert_eq!(number(&plan.answered[0].1), 77);
    assert!(matches!(&plan.answered[1].1, StatusItemType::String(s) if s == "abc"));
    assert_eq!(number(&plan.answered[2].1), 0);
    assert_eq!(
        plan.missing,
        vec![
            Status::Messages,
            Status::UidNext,
            Status::UidValidity,
            Status::Unseen,
            Status::Deleted,
            Status::Size
        ]
    );
    assert!(plan.synchronize);
}

#[test]
fn plan_names_a_missing_item_once() {
    let state = MailboxState::new();
    let plan = state.plan(
        &vec![Status::Unseen, Status::Messages, Status::Unseen, Status::Messages, Status::Size],
        0,
        "x",
    );
    assert!(plan.answered.is_empty());
    assert_eq!(plan.missing, vec![Status::Unseen, Status::Messages, Status::Size]);
    assert!(!plan.synchronize);
}

#[test]
fn plan_answers_from_known_counters() {
    let state = MailboxState {
        uid_next: Some(12),
        uid_validity: None,
        total_messages: Some(5),
        total_unseen: Some(2),
        total_deleted: None,
        size: Some(4096),
    };
    let plan = state.plan(
        &vec![
            Status::Messages,
            Status::UidNext,
            Status::Deleted,
            Status::Unseen,
            Status::Size,
            Status::Messages,
        ],
        9,
        "id",
    );
    let answered: Vec<(Status, u64)> =
        plan.answered.iter().map(|(item, answer)| (*item, number(answer))).collect();
    assert_eq!(
        answered,
        vec![
            (Status::Messages, 5),
            (Status::UidNext, 12),
            (Status::Unseen, 2),
            (Status::Size, 4096),
            (Status::Messages, 5)
        ]
    );
    assert_eq!(plan.missing, vec![Status::Deleted]);
    assert!(!plan.synchronize);

    let plan = state.plan(&vec![Status::UidValidity], 9, "id");
    assert_eq!(plan.missing, vec![Status::UidValidity]);
    assert!(plan.synchronize);
}

#[test]
fn complete_appends_what_was_counted() {
    let ready = vec![(Status::Recent, StatusItemType::Number(0))];
    let (answers, values) =
        complete(ready, &vec![(Status::Messages, 10), (Status::Size, 0x1_0000_0005)]);
    let answers: Vec<(Status, u64)> =
        answers.iter().map(|(item, answer)| (*item, number(answer))).collect();
    assert_eq!(
        answers,
        vec![(Status::Recent, 0), (Status::Messages, 10), (Status::Size, 0x1_0000_0005)]
    );
    assert_eq!(values, vec![(Status::Messages, 10), (Status::Size, 5)]);
}

#[test]
fn record_keeps_the_counters() {
    let mut state = MailboxState::new();
    state.record(&vec![
        (Status::Messages, 10),
        (Status::UidNext, 11),
        (Status::UidValidity, 12),
        (Status::Unseen, 13),
        (Status::Deleted, 14),
        (Status::Size, 15),
        (Status::Messages, 16),
    ]);
    assert_eq!(state.total_messages, Some(16));
    assert_eq!(state.uid_next, Some(11));
    assert_eq!(state.uid_validity, Some(12));
    assert_eq!(state.total_unseen, Some(13));
    assert_eq!(state.total_deleted, Some(14));
    assert_eq!(state.size, Some(15));
    let plan = state.plan(&ALL.to_vec(), 1, "m");
    assert!(plan.missing.is_empty());
    assert_eq!(plan.answered.len(), 9);
}

#[test]
fn shared_folder_names() {
    assert!(is_shared_folder("Shared Folders", "Shared Folders"));
    assert!(is_shared_folder("Shared Folders/jane", "Shared Folders"));
    assert!(is_shared_folder("Shared Folders/", "Shared Folders"));
    assert!(!is_shared_folder("Shared Folders/jane/Inbox", "Shared Folders"));
    assert!(!is_shared_folder("Shared Folders//", "Shared Folders"));
    assert!(!is_shared_folder("Shared", "Shared Folders"));
    assert!(!is_shared_folder("Other/jane", "Shared Folders"));
    assert!(!is_shared_folder("Shared Folders jane", "Shared Folders"));
    assert!(!is_shared_folder("", "Shared Folders"));
    assert!(is_shared_folder("", ""));
    assert!(is_shared_folder("/x", ""));
    assert!(is_shared_folder("a/b", "a/b"));
    assert!(!is_shared_folder("a/b/c", "a/b"));
}

#[test]
fn characters_of_a_text() {
    assert_eq!(characters("h\u{e9}!"), vec!['h', '\u{e9}', '!']);
    assert!(characters("").is_empty());
    assert!(same_characters(&vec!['a', 'b'], &vec!['a', 'b']));
    assert!(!same_characters(&vec!['a', 'b'], &vec!['a', 'c']));
    assert!(!same_characters(&vec!['a'], &vec!['a', 'b']));
}
