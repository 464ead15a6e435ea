//! State changes: what upstream reports and what a subscriber is told.

use vstd::prelude::*;

verus! {

/// The kinds of data whose state a subscriber can follow.
#[derive(Clone, Copy, Debug, PartialEq, Eq, Structural)]
pub enum TypeState {
    Email,
    EmailDelivery,
    EmailSubmission,
    Mailbox,
    Thread,
    Identity,
}

/// One observed change of an account's data: for each type that changed, the
/// change id it has reached.
#[derive(Debug)]
pub struct StateChange {
    pub account_id: u32,
    pub types: Vec<(TypeState, u64)>,
}

/// A [`StateChange`] as a mathematical value.
pub struct StateChangeView {
    pub account_id: u32,
    pub types: Seq<(TypeState, u64)>,
}

impl View for StateChange {
    type V = StateChangeView;

    open spec fn view(&self) -> StateChangeView {
        StateChangeView { account_id: self.account_id, types: self.types@ }
    }
}

/// The views of a sequence of state changes, in the same order.
pub open spec fn changes_view(changes: Seq<StateChange>) -> Seq<StateChangeView> {
    changes.map_values(|c: StateChange| c@)
}

impl StateChange {
    /// A state change for `account_id` that names no type yet.
    pub fn new(account_id: u32) -> (change: StateChange)
        ensures
            change@ == (StateChangeView { account_id, types: Seq::empty() }),
    {
        StateChange { account_id, types: Vec::new() }
    }

    /// Adds the change id that `type_state` has reached.
    pub fn with_change(self, type_state: TypeState, change_id: u64) -> (change: StateChange)
        ensures
            change@ == (StateChangeView {
                account_id: self.account_id,
                types: self.types@.push((type_state, change_id)),
            }),
    {
        let mut change = self;
        change.types.push((type_state, change_id));
        change
    }

    /// A copy that holds the same account and the same changes.
    pub fn duplicate(&self) -> (copy: StateChange)
        ensures
            copy@ == self@,
    {
        let mut types: Vec<(TypeState, u64)> = Vec::new();
        let mut i: usize = 0;
        while i < self.types.len()
            invariant
                i <= self.types.len(),
                types@ == self.types@.take(i as int),
            decreases self.types.len() - i,
        {
            let entry = self.types[i];
            types.push(entry);
            proof {
                assert(self.types@.take(i + 1) =~= self.types@.take(i as int).push(entry));
            }
            i += 1;
        }
        proof {
            assert(self.types@.take(self.types.len() as int) =~= self.types@);
        }
        StateChange { account_id: self.account_id, types }
    }
}

/// Copies a batch of state changes.
pub fn duplicate_changes(changes: &Vec<StateChange>) -> (copy: Vec<StateChange>)
    ensures
        changes_view(copy@) == changes_view(changes@),
{
    let mut copy: Vec<StateChange> = Vec::new();
    let mut i: usize = 0;
    while i < changes.len()
        invariant
            i <= changes.len(),
            changes_view(copy@) == changes_view(changes@.take(i as int)),
        decreases changes.len() - i,
    {
        let ghost before = copy@;
        copy.push(changes[i].duplicate());
        proof {
            let target = changes_view(changes@.take(i + 1));
            assert(changes_view(before).len() == i);
            assert forall|j: int| 0 <= j < i + 1 implies changes_view(copy@)[j] == target[j] by {
                if j < i {
                    assert(changes_view(before)[j] == changes_view(changes@.take(i as int))[j]);
                }
            }
            assert(changes_view(copy@) =~= target);
        }
        i += 1;
    }
    proof {
        assert(changes@.take(changes.len() as int) =~= changes@);
    }
    copy
}

} // verus!
