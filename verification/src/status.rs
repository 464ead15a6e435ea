//! Answering a mailbox status request: what the cache can answer, what has to
//! be counted, and what the counts then are worth.

use vstd::prelude::*;
use vstd::string::*;
use crate::text::{characters, same_characters};

verus! {

/// What can be asked about a mailbox.
#[derive(Clone, Copy, Debug, PartialEq, Eq, Structural)]
pub enum Status {
    Messages,
    UidNext,
    UidValidity,
    Unseen,
    Deleted,
    Size,
    HighestModSeq,
    MailboxId,
    Recent,
}

/// The answer to one item of a status request.
#[derive(Debug)]
pub enum StatusItemType {
    Number(u64),
    String(String),
}

/// A [`StatusItemType`] as a mathematical value.
pub enum StatusValue {
    Number(u64),
    String(Seq<char>),
}

impl View for StatusItemType {
    type V = StatusValue;

    open spec fn view(&self) -> StatusValue {
        match *self {
            StatusItemType::Number(n) => StatusValue::Number(n),
            StatusItemType::String(s) => StatusValue::String(s@),
        }
    }
}

/// The views of a sequence of answers, in the same order.
pub open spec fn answers_view(answers: Seq<(Status, StatusItemType)>) -> Seq<(Status, StatusValue)> {
    answers.map_values(|a: (Status, StatusItemType)| (a.0, a.1@))
}

/// The counters that are kept of a mailbox between requests. One that is
/// absent has to be counted again.
#[derive(Clone, Copy, Debug)]
pub struct MailboxState {
    pub uid_next: Option<u32>,
    pub uid_validity: Option<u32>,
    pub total_messages: Option<u32>,
    pub total_unseen: Option<u32>,
    pub total_deleted: Option<u32>,
    pub size: Option<u32>,
}

/// Whether an item is answered by a counter of the mailbox.
pub open spec fn is_counted(item: Status) -> bool {
    match item {
        Status::Messages | Status::UidNext | Status::UidValidity | Status::Unseen
        | Status::Deleted | Status::Size => true,
        _ => false,
    }
}

/// Decides [`is_counted`].
pub fn counted(item: Status) -> (yes: bool)
    ensures
        yes == is_counted(item),
{
    match item {
        Status::Messages | Status::UidNext | Status::UidValidity | Status::Unseen
        | Status::Deleted | Status::Size => true,
        _ => false,
    }
}

/// The answer for a mailbox that exists by name only and cannot be selected:
/// no messages, nothing changed, the first uid still to come, and no id.
pub open spec fn unselectable_answer(item: Status) -> StatusValue {
    match item {
        Status::Messages | Status::Size | Status::Unseen | Status::Recent | Status::Deleted
        | Status::HighestModSeq => StatusValue::Number(0),
        Status::UidNext | Status::UidValidity => StatusValue::Number(1),
        Status::MailboxId => StatusValue::String("none"@),
    }
}

/// Answers a status request for a mailbox that cannot be selected.
pub fn unselectable_status(items: &Vec<Status>) -> (answers: Vec<(Status, StatusItemType)>)
    ensures
        answers_view(answers@) == items@.map_values(|i: Status| (i, unselectable_answer(i))),
{
    let mut answers: Vec<(Status, StatusItemType)> = Vec::new();
    let mut k: usize = 0;
    while k < items.len()
        invariant
            k <= items.len(),
            answers_view(answers@) =~= items@.map_values(
                |i: Status| (i, unselectable_answer(i)),
            ).take(k as int),
        decreases items.len() - k,
    {
        let ghost before = answers@;
        let item = items[k];
        let answer = match item {
            Status::Messages | Status::Size | Status::Unseen | Status::Recent | Status::Deleted
            | Status::HighestModSeq => StatusItemType::Number(0),
            Status::UidNext | Status::UidValidity => StatusItemType::Number(1),
            Status::MailboxId => StatusItemType::String(String::from_str("none")),
        };
        answers.push((item, answer));
        proof {
            let goal = items@.map_values(|i: Status| (i, unselectable_answer(i)));
            assert(answers_view(before).len() == k);
            assert forall|n: int| 0 <= n < k + 1 implies answers_view(answers@)[n] == goal.take(
                k + 1,
            )[n] by {
                if n < k {
                    assert(answers_view(before)[n] == goal.take(k as int)[n]);
                }
            }
        }
        k += 1;
    }
    proof {
        let goal = items@.map_values(|i: Status| (i, unselectable_answer(i)));
        assert(goal.take(items.len() as int) =~= goal);
    }
    answers
}

impl MailboxState {
    /// A mailbox of which nothing is known.
    pub fn new() -> (state: MailboxState)
        ensures
            state == (MailboxState {
                uid_next: None,
                uid_validity: None,
                total_messages: None,
                total_unseen: None,
                total_deleted: None,
                size: None,
            }),
    {
        MailboxState {
            uid_next: None,
            uid_validity: None,
            total_messages: None,
            total_unseen: None,
            total_deleted: None,
            size: None,
        }
    }

    /// The counter that answers `item`, if the item is counted and the counter
    /// is known.
    pub open spec fn counter(self, item: Status) -> Option<u32> {
        match item {
            Status::Messages => self.total_messages,
            Status::UidNext => self.uid_next,
            Status::UidValidity => self.uid_validity,
            Status::Unseen => self.total_unseen,
            Status::Deleted => self.total_deleted,
            Status::Size => self.size,
            _ => None,
        }
    }

    /// The answer that can be given to `item` without counting: a known
    /// counter, the modification sequence, the mailbox id, or that no message
    /// is recent.
    pub open spec fn ready_answer(
        self,
        item: Status,
        modseq: u64,
        mailbox_id: Seq<char>,
    ) -> Option<StatusValue> {
        match item {
            Status::HighestModSeq => Some(StatusValue::Number(modseq)),
            Status::MailboxId => Some(StatusValue::String(mailbox_id)),
            Status::Recent => Some(StatusValue::Number(0)),
            _ => match self.counter(item) {
                Some(value) => Some(StatusValue::Number(value as u64)),
                None => None,
            },
        }
    }

    /// The mailbox with the counter of `item` set to `value`. An item that is
    /// not counted changes nothing.
    pub open spec fn with_counter(self, item: Status, value: u32) -> MailboxState {
        match item {
            Status::Messages => MailboxState { total_messages: Some(value), ..self },
            Status::UidNext => MailboxState { uid_next: Some(value), ..self },
            Status::UidValidity => MailboxState { uid_validity: Some(value), ..self },
            Status::Unseen => MailboxState { total_unseen: Some(value), ..self },
            Status::Deleted => MailboxState { total_deleted: Some(value), ..self },
            Status::Size => MailboxState { size: Some(value), ..self },
            _ => self,
        }
    }

    /// The mailbox after the counters `values` were set one after the other.
    pub open spec fn with_counters(self, values: Seq<(Status, u32)>) -> MailboxState
        decreases values.len(),
    {
        if values.len() == 0 {
            self
        } else {
            self.with_counters(values.drop_last()).with_counter(values.last().0, values.last().1)
        }
    }
}

/// What a status request needs before it can be answered in full.
#[derive(Debug)]
pub struct StatusPlan {
    /// The answers that are ready, in the order of the request.
    pub answered: Vec<(Status, StatusItemType)>,
    /// The items that have to be counted, each once, in the order in which the
    /// request first names them.
    pub missing: Vec<Status>,
    /// Whether the messages of the mailbox have to be fetched for the counts.
    pub synchronize: bool,
}

/// A [`StatusPlan`] as a mathematical value.
pub struct StatusPlanView {
    pub answered: Seq<(Status, StatusValue)>,
    pub missing: Seq<Status>,
    pub synchronize: bool,
}

impl View for StatusPlan {
    type V = StatusPlanView;

    open spec fn view(&self) -> StatusPlanView {
        StatusPlanView {
            answered: answers_view(self.answered@),
            missing: self.missing@,
            synchronize: self.synchronize,
        }
    }
}

/// The plan for the items `items`: each one that has a ready answer is
/// answered; each other is noted as missing unless it is already; and the
/// mailbox is synchronized if the next uid or the uid validity is missing.
pub open spec fn plan_of(
    state: MailboxState,
    items: Seq<Status>,
    modseq: u64,
    mailbox_id: Seq<char>,
) -> StatusPlanView
    decreases items.len(),
{
    if items.len() == 0 {
        StatusPlanView { answered: Seq::empty(), missing: Seq::empty(), synchronize: false }
    } else {
        let before = plan_of(state, items.drop_last(), modseq, mailbox_id);
        let item = items.last();
        match state.ready_answer(item, modseq, mailbox_id) {
            Some(answer) => StatusPlanView {
                answered: before.answered.push((item, answer)),
                ..before
            },
            None => StatusPlanView {
                missing: if before.missing.contains(item) {
                    before.missing
                } else {
                    before.missing.push(item)
                },
                synchronize: before.synchronize || item == Status::UidNext || item
                    == Status::UidValidity,
                ..before
            },
        }
    }
}

fn holds(items: &Vec<Status>, item: Status) -> (found: bool)
    ensures
        found == items@.contains(item),
{
    let mut k: usize = 0;
    while k < items.len()
        invariant
            k <= items.len(),
            forall|n: int| 0 <= n < k ==> items@[n] != item,
        decreases items.len() - k,
    {
        if items[k] == item {
            return true;
        }
        k += 1;
    }
    false
}

impl MailboxState {
    /// Plans the answer to a status request from what is known of the
    /// mailbox.
    pub fn plan(&self, items: &Vec<Status>, modseq: u64, mailbox_id: &str) -> (plan: StatusPlan)
        ensures
            plan@ == plan_of(*self, items@, modseq, mailbox_id@),
    {
        let mut plan = StatusPlan { answered: Vec::new(), missing: Vec::new(), synchronize: false };
        let mut k: usize = 0;
        proof {
            assert(items@.take(0) =~= Seq::<Status>::empty());
            assert(plan@.answered =~= Seq::<(Status, StatusValue)>::empty());
        }
        while k < items.len()
            invariant
                k <= items.len(),
                plan@ == plan_of(*self, items@.take(k as int), modseq, mailbox_id@),
            decreases items.len() - k,
        {
            let item = items[k];
            let ghost before = plan.answered@;
            proof {
                assert(items@.take(k + 1).drop_last() =~= items@.take(k as int));
                assert(items@.take(k + 1).last() == item);
            }
            let counter = match item {
                Status::Messages => self.total_messages,
                Status::UidNext => self.uid_next,
                Status::UidValidity => self.uid_validity,
                Status::Unseen => self.total_unseen,
                Status::Deleted => self.total_deleted,
                Status::Size => self.size,
                _ => None,
            };
            let ready = match item {
                Status::HighestModSeq => Some(StatusItemType::Number(modseq)),
                Status::MailboxId => Some(StatusItemType::String(String::from_str(mailbox_id))),
                Status::Recent => Some(StatusItemType::Number(0)),
                _ => match counter {
                    Some(value) => Some(StatusItemType::Number(value as u64)),
                    None => None,
                },
            };
            match ready {
                Some(answer) => {
                    plan.answered.push((item, answer));
                    proof {
                        assert(answers_view(before.push((item, answer))) =~= answers_view(
                            before,
                        ).push((item, answer@)));
                    }
                },
                None => {
                    if !holds(&plan.missing, item) {
                        plan.missing.push(item);
                    }
                    if item == Status::UidNext || item == Status::UidValidity {
                        plan.synchronize = true;
                    }
                },
            }
            k += 1;
        }
        proof {
            assert(items@.take(items.len() as int) =~= items@);
        }
        plan
    }

    /// Keeps the counters that were counted for a request. Only counted items
    /// have a counter.
    pub fn record(&mut self, values: &Vec<(Status, u32)>)
        requires
            forall|k: int| 0 <= k < values@.len() ==> is_counted((#[trigger] values@[k]).0),
        ensures
            *final(self) == old(self).with_counters(values@),
    {
        let mut k: usize = 0;
        proof {
            assert(values@.take(0) =~= Seq::<(Status, u32)>::empty());
        }
        while k < values.len()
            invariant
                k <= values.len(),
                *self == old(self).with_counters(values@.take(k as int)),
            decreases values.len() - k,
        {
            let (item, value) = values[k];
            proof {
                assert(values@.take(k + 1).drop_last() =~= values@.take(k as int));
                assert(values@.take(k + 1).last() == (item, value));
            }
            match item {
                Status::Messages => {
                    self.total_messages = Some(value);
                },
                Status::UidNext => {
                    self.uid_next = Some(value);
                },
                Status::UidValidity => {
                    self.uid_validity = Some(value);
                },
                Status::Unseen => {
                    self.total_unseen = Some(value);
                },
                Status::Deleted => {
                    self.total_deleted = Some(value);
                },
                Status::Size => {
                    self.size = Some(value);
                },
                _ => {},
            }
            k += 1;
        }
        proof {
            assert(values@.take(values.len() as int) =~= values@);
        }
    }
}

/// The counter that is kept of a count: its low 32 bits.
pub open spec fn kept(count: u64) -> u32 {
    (count % 0x1_0000_0000) as u32
}

/// Completes the ready answers with what was counted: the answer to each
/// counted item follows the ready ones, and each count is handed out as the
/// counter to keep.
pub fn complete(answered: Vec<(Status, StatusItemType)>, counted: &Vec<(Status, u64)>) -> (done: (
    Vec<(Status, StatusItemType)>,
    Vec<(Status, u32)>,
))
    ensures
        answers_view(done.0@) == answers_view(answered@) + counted@.map_values(
            |c: (Status, u64)| (c.0, StatusValue::Number(c.1)),
        ),
        done.1@ == counted@.map_values(|c: (Status, u64)| (c.0, kept(c.1))),
{
    let ghost ready = answers_view(answered@);
    let ghost new_answers = counted@.map_values(
        |c: (Status, u64)| (c.0, StatusValue::Number(c.1)),
    );
    let ghost new_values = counted@.map_values(|c: (Status, u64)| (c.0, kept(c.1)));
    let mut answers = answered;
    let mut values: Vec<(Status, u32)> = Vec::new();
    let mut k: usize = 0;
    proof {
        assert(answers_view(answers@) =~= ready + new_answers.take(0));
    }
    while k < counted.len()
        invariant
            k <= counted.len(),
            new_answers == counted@.map_values(|c: (Status, u64)| (c.0, StatusValue::Number(c.1))),
            new_values == counted@.map_values(|c: (Status, u64)| (c.0, kept(c.1))),
            answers_view(answers@) =~= ready + new_answers.take(k as int),
            values@ =~= new_values.take(k as int),
        decreases counted.len() - k,
    {
        let ghost before = answers@;
        let (item, count) = counted[k];
        answers.push((item, StatusItemType::Number(count)));
        values.push((item, (count % 0x1_0000_0000) as u32));
        proof {
            let goal = ready + new_answers.take(k + 1);
            assert(answers_view(before).len() == ready.len() + k);
            assert forall|n: int| 0 <= n < goal.len() implies answers_view(answers@)[n]
                == goal[n] by {
                if n < ready.len() + k {
                    assert(answers_view(before)[n] == (ready + new_answers.take(k as int))[n]);
                }
            }
        }
        k += 1;
    }
    proof {
        assert(new_answers.take(counted.len() as int) =~= new_answers);
        assert(new_values.take(counted.len() as int) =~= new_values);
    }
    (answers, values)
}

/// Whether a mailbox name is that of the folder of shared mailboxes or of a
/// folder directly below it: the name of the shared folder, or that name, a
/// slash, and a name without a slash.
pub open spec fn names_shared_folder(name: Seq<char>, shared: Seq<char>) -> bool {
    ||| name == shared
    ||| exists|i: int|
        0 <= i < name.len() && #[trigger] name[i] == '/' && name.take(i) == shared && forall|
            j: int,
        |
            0 <= j < name.len() && j != i ==> name[j] != '/'
}

proof fn lemma_shared_folder_by_its_slash(name: Seq<char>, shared: Seq<char>, i: int)
    requires
        0 <= i < name.len(),
        name[i] == '/',
        name != shared,
    ensures
        names_shared_folder(name, shared) <==> (name.take(i) == shared && forall|j: int|
            0 <= j < name.len() && j != i ==> name[j] != '/'),
{
    if names_shared_folder(name, shared) {
        let n = choose|n: int|
            0 <= n < name.len() && #[trigger] name[n] == '/' && name.take(n) == shared && forall|
                j: int,
            |
                0 <= j < name.len() && j != n ==> name[j] != '/';
        assert(n == i);
    }
}

/// Decides [`names_shared_folder`].
#[verifier::loop_isolation(false)]
pub fn is_shared_folder(mailbox_name: &str, name_shared: &str) -> (yes: bool)
    ensures
        yes == names_shared_folder(mailbox_name@, name_shared@),
{
    let name = characters(mailbox_name);
    let shared = characters(name_shared);
    if same_characters(&name, &shared) {
        return true;
    }
    let mut i: usize = 0;
    while i < name.len() && name[i] != '/'
        invariant
            i <= name.len(),
            forall|n: int| 0 <= n < i ==> name@[n] != '/',
        decreases name.len() - i,
    {
        i += 1;
    }
    if i == name.len() {
        return false;
    }
    proof {
        lemma_shared_folder_by_its_slash(name@, shared@, i as int);
    }
    let mut base: Vec<char> = Vec::new();
    let mut k: usize = 0;
    while k < i
        invariant
            k <= i <= name.len(),
            base@ == name@.take(k as int),
        decreases i - k,
    {
        proof {
            assert(name@.take(k + 1) =~= name@.take(k as int).push(name@[k as int]));
        }
        base.push(name[k]);
        k += 1;
    }
    if !same_characters(&base, &shared) {
        return false;
    }
    let mut j: usize = i + 1;
    while j < name.len()
        invariant
            i < j <= name.len(),
            forall|n: int| 0 <= n < i ==> name@[n] != '/',
            forall|n: int| i < n < j ==> name@[n] != '/',
        decreases name.len() - j,
    {
        if name[j] == '/' {
            return false;
        }
        j += 1;
    }
    true
}

} // verus!
