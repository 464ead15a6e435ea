//! The body of a state-change notification: the queued changes folded into
//! one change id per account and type.

use vstd::prelude::*;
use crate::state_change::{changes_view, StateChange, StateChangeView, TypeState};

verus! {

/// The change ids that the types of one account have reached, in the order in
/// which the types were first seen.
#[derive(Debug)]
pub struct AccountChanges {
    pub account_id: u32,
    pub types: Vec<(TypeState, u64)>,
}

/// [`AccountChanges`] as a mathematical value.
pub struct AccountChangesView {
    pub account_id: u32,
    pub types: Seq<(TypeState, u64)>,
}

impl View for AccountChanges {
    type V = AccountChangesView;

    open spec fn view(&self) -> AccountChangesView {
        AccountChangesView { account_id: self.account_id, types: self.types@ }
    }
}

/// What a subscriber is told: for each account, in the order in which the
/// accounts were first seen, the change ids of its types.
#[derive(Debug)]
pub struct StateChangeResponse {
    pub changed: Vec<AccountChanges>,
}

impl View for StateChangeResponse {
    type V = Seq<AccountChangesView>;

    open spec fn view(&self) -> Seq<AccountChangesView> {
        self.changed@.map_values(|a: AccountChanges| a@)
    }
}

/// The index of the first entry for `type_state`, or the length if there is
/// none.
pub open spec fn type_position(types: Seq<(TypeState, u64)>, type_state: TypeState) -> int
    decreases types.len(),
{
    if types.len() == 0 {
        0
    } else {
        let before = type_position(types.drop_last(), type_state);
        if before < types.len() - 1 || types.last().0 == type_state {
            before
        } else {
            types.len() as int
        }
    }
}

/// The index of the first entry for `account_id`, or the length if there is
/// none.
pub open spec fn account_position(changed: Seq<AccountChangesView>, account_id: u32) -> int
    decreases changed.len(),
{
    if changed.len() == 0 {
        0
    } else {
        let before = account_position(changed.drop_last(), account_id);
        if before < changed.len() - 1 || changed.last().account_id == account_id {
            before
        } else {
            changed.len() as int
        }
    }
}

/// The types with the change id of `type_state` set to `change_id`: in place
/// where the type has an entry, at the end where it has none.
pub open spec fn set_type(
    types: Seq<(TypeState, u64)>,
    type_state: TypeState,
    change_id: u64,
) -> Seq<(TypeState, u64)> {
    let at = type_position(types, type_state);
    if at < types.len() {
        types.update(at, (type_state, change_id))
    } else {
        types.push((type_state, change_id))
    }
}

/// The response with the cell of `account_id` and `type_state` set to
/// `change_id`. An account that has no entry gets one at the end.
pub open spec fn set_cell(
    changed: Seq<AccountChangesView>,
    account_id: u32,
    type_state: TypeState,
    change_id: u64,
) -> Seq<AccountChangesView> {
    let at = account_position(changed, account_id);
    if at < changed.len() {
        changed.update(
            at,
            AccountChangesView {
                account_id,
                types: set_type(changed[at].types, type_state, change_id),
            },
        )
    } else {
        changed.push(AccountChangesView { account_id, types: seq![(type_state, change_id)] })
    }
}

/// The response after the changes `types` of `account_id` were written into
/// it, one after the other.
pub open spec fn fold_types(
    changed: Seq<AccountChangesView>,
    account_id: u32,
    types: Seq<(TypeState, u64)>,
) -> Seq<AccountChangesView>
    decreases types.len(),
{
    if types.len() == 0 {
        changed
    } else {
        set_cell(
            fold_types(changed, account_id, types.drop_last()),
            account_id,
            types.last().0,
            types.last().1,
        )
    }
}

/// The response that `changes` fold into: each change is written into it in
/// turn, so that every cell holds what was written to it last.
pub open spec fn fold_changes(changes: Seq<StateChangeView>) -> Seq<AccountChangesView>
    decreases changes.len(),
{
    if changes.len() == 0 {
        Seq::empty()
    } else {
        fold_types(
            fold_changes(changes.drop_last()),
            changes.last().account_id,
            changes.last().types,
        )
    }
}

/// The change id that the response holds for `account_id` and `type_state`.
pub open spec fn cell(
    changed: Seq<AccountChangesView>,
    account_id: u32,
    type_state: TypeState,
) -> Option<u64> {
    let at = account_position(changed, account_id);
    if at < changed.len() {
        let types = changed[at].types;
        let slot = type_position(types, type_state);
        if slot < types.len() {
            Some(types[slot].1)
        } else {
            None
        }
    } else {
        None
    }
}

/// What [`type_position`] finds: the first entry for the type.
proof fn lemma_type_position(types: Seq<(TypeState, u64)>, type_state: TypeState)
    ensures
        0 <= type_position(types, type_state) <= types.len(),
        type_position(types, type_state) < types.len() ==> types[type_position(
            types,
            type_state,
        )].0 == type_state,
        forall|i: int|
            0 <= i < type_position(types, type_state) ==> (#[trigger] types[i]).0 != type_state,
    decreases types.len(),
{
    if types.len() > 0 {
        lemma_type_position(types.drop_last(), type_state);
        assert forall|i: int| 0 <= i < type_position(types, type_state) implies (
        #[trigger] types[i]).0 != type_state by {
            if i < types.len() - 1 {
                assert(types.drop_last()[i] == types[i]);
            }
        }
    }
}

/// What [`account_position`] finds: the first entry for the account.
proof fn lemma_account_position(changed: Seq<AccountChangesView>, account_id: u32)
    ensures
        0 <= account_position(changed, account_id) <= changed.len(),
        account_position(changed, account_id) < changed.len() ==> changed[account_position(
            changed,
            account_id,
        )].account_id == account_id,
        forall|i: int|
            0 <= i < account_position(changed, account_id) ==> (#[trigger] changed[i]).account_id
                != account_id,
    decreases changed.len(),
{
    if changed.len() > 0 {
        lemma_account_position(changed.drop_last(), account_id);
        assert forall|i: int| 0 <= i < account_position(changed, account_id) implies (
        #[trigger] changed[i]).account_id != account_id by {
            if i < changed.len() - 1 {
                assert(changed.drop_last()[i] == changed[i]);
            }
        }
    }
}

proof fn lemma_type_position_is(types: Seq<(TypeState, u64)>, type_state: TypeState, at: int)
    requires
        0 <= at <= types.len(),
        at < types.len() ==> types[at].0 == type_state,
        forall|i: int| 0 <= i < at ==> (#[trigger] types[i]).0 != type_state,
    ensures
        type_position(types, type_state) == at,
{
    lemma_type_position(types, type_state);
    let found = type_position(types, type_state);
    if found < at {
        assert(types[found].0 != type_state);
    }
    if at < found {
        assert(types[at].0 != type_state);
    }
}

proof fn lemma_account_position_is(changed: Seq<AccountChangesView>, account_id: u32, at: int)
    requires
        0 <= at <= changed.len(),
        at < changed.len() ==> changed[at].account_id == account_id,
        forall|i: int| 0 <= i < at ==> (#[trigger] changed[i]).account_id != account_id,
    ensures
        account_position(changed, account_id) == at,
{
    lemma_account_position(changed, account_id);
    let found = account_position(changed, account_id);
    if found < at {
        assert(changed[found].account_id != account_id);
    }
    if at < found {
        assert(changed[at].account_id != account_id);
    }
}

/// Writing a cell sets that cell and leaves every other cell as it was.
pub proof fn law_set_cell_leaves_other_cells(
    changed: Seq<AccountChangesView>,
    account_id: u32,
    type_state: TypeState,
    change_id: u64,
    other_account: u32,
    other_type: TypeState,
)
    ensures
        cell(set_cell(changed, account_id, type_state, change_id), other_account, other_type) == (
        if other_account == account_id && other_type == type_state {
            Some(change_id)
        } else {
            cell(changed, other_account, other_type)
        }),
{
    let after = set_cell(changed, account_id, type_state, change_id);
    let at = account_position(changed, account_id);
    lemma_account_position(changed, account_id);
    lemma_account_position(changed, other_account);
    let other_at = account_position(changed, other_account);
    if at < changed.len() {
        let types = changed[at].types;
        let new_types = set_type(types, type_state, change_id);
        assert forall|i: int| 0 <= i < after.len() implies (#[trigger] after[i]).account_id
            == changed[i].account_id by {}
        lemma_account_position_is(after, other_account, other_at);
        if other_account == account_id {
            lemma_type_position(types, type_state);
            lemma_type_position(types, other_type);
            let slot = type_position(types, type_state);
            let other_slot = type_position(types, other_type);
            if slot < types.len() {
                assert forall|i: int| 0 <= i < new_types.len() implies (
                #[trigger] new_types[i]).0 == types[i].0 by {}
                lemma_type_position_is(new_types, other_type, other_slot);
            } else {
                if other_type == type_state {
                    lemma_type_position_is(new_types, other_type, types.len() as int);
                } else {
                    if other_slot < types.len() {
                        lemma_type_position_is(new_types, other_type, other_slot);
                    } else {
                        lemma_type_position_is(new_types, other_type, new_types.len() as int);
                    }
                }
            }
        }
    } else {
        if other_account == account_id {
            lemma_account_position_is(after, other_account, changed.len() as int);
            let new_types = seq![(type_state, change_id)];
            if other_type == type_state {
                lemma_type_position_is(new_types, other_type, 0);
            } else {
                lemma_type_position_is(new_types, other_type, 1);
            }
        } else {
            if other_at < changed.len() {
                lemma_account_position_is(after, other_account, other_at);
            } else {
                lemma_account_position_is(after, other_account, after.len() as int);
            }
        }
    }
}

/// The change id that `types` write last for `type_state`.
pub open spec fn last_in_types(types: Seq<(TypeState, u64)>, type_state: TypeState) -> Option<u64>
    decreases types.len(),
{
    if types.len() == 0 {
        None
    } else if types.last().0 == type_state {
        Some(types.last().1)
    } else {
        last_in_types(types.drop_last(), type_state)
    }
}

/// The change id that `changes` write last for `account_id` and `type_state`.
pub open spec fn last_written(
    changes: Seq<StateChangeView>,
    account_id: u32,
    type_state: TypeState,
) -> Option<u64>
    decreases changes.len(),
{
    if changes.len() == 0 {
        None
    } else if changes.last().account_id == account_id && last_in_types(
        changes.last().types,
        type_state,
    ) is Some {
        last_in_types(changes.last().types, type_state)
    } else {
        last_written(changes.drop_last(), account_id, type_state)
    }
}

/// The greater of two change ids that may be absent.
pub open spec fn greater(x: Option<u64>, y: Option<u64>) -> Option<u64> {
    match (x, y) {
        (Some(a), Some(b)) => if a >= b {
            x
        } else {
            y
        },
        (Some(_), None) => x,
        _ => y,
    }
}

/// The greatest change id that `types` write for `type_state`.
pub open spec fn max_in_types(types: Seq<(TypeState, u64)>, type_state: TypeState) -> Option<u64>
    decreases types.len(),
{
    if types.len() == 0 {
        None
    } else {
        greater(
            max_in_types(types.drop_last(), type_state),
            if types.last().0 == type_state {
                Some(types.last().1)
            } else {
                None
            },
        )
    }
}

/// The greatest change id that `changes` write for `account_id` and
/// `type_state`.
pub open spec fn max_written(
    changes: Seq<StateChangeView>,
    account_id: u32,
    type_state: TypeState,
) -> Option<u64>
    decreases changes.len(),
{
    if changes.len() == 0 {
        None
    } else {
        greater(
            max_written(changes.drop_last(), account_id, type_state),
            if changes.last().account_id == account_id {
                max_in_types(changes.last().types, type_state)
            } else {
                None
            },
        )
    }
}

/// Whether each change id that `types` write for `type_state` is at least
/// `floor` and at least what they wrote for it before.
pub open spec fn types_ascend(
    types: Seq<(TypeState, u64)>,
    type_state: TypeState,
    floor: Option<u64>,
) -> bool
    decreases types.len(),
{
    if types.len() == 0 {
        true
    } else {
        &&& types_ascend(types.drop_last(), type_state, floor)
        &&& types.last().0 == type_state ==> greater(
            greater(floor, max_in_types(types.drop_last(), type_state)),
            Some(types.last().1),
        ) == Some(types.last().1)
    }
}

/// Whether the change ids that `changes` write for `account_id` and
/// `type_state` never go down: each is at least every one written before it.
pub open spec fn ascends(
    changes: Seq<StateChangeView>,
    account_id: u32,
    type_state: TypeState,
) -> bool
    decreases changes.len(),
{
    if changes.len() == 0 {
        true
    } else {
        &&& ascends(changes.drop_last(), account_id, type_state)
        &&& changes.last().account_id == account_id ==> types_ascend(
            changes.last().types,
            type_state,
            max_written(changes.drop_last(), account_id, type_state),
        )
    }
}

proof fn lemma_fold_types_cell(
    changed: Seq<AccountChangesView>,
    account_id: u32,
    types: Seq<(TypeState, u64)>,
    other_account: u32,
    other_type: TypeState,
)
    ensures
        cell(fold_types(changed, account_id, types), other_account, other_type) == (
        if other_account == account_id && last_in_types(types, other_type) is Some {
            last_in_types(types, other_type)
        } else {
            cell(changed, other_account, other_type)
        }),
    decreases types.len(),
{
    if types.len() > 0 {
        lemma_fold_types_cell(changed, account_id, types.drop_last(), other_account, other_type);
        law_set_cell_leaves_other_cells(
            fold_types(changed, account_id, types.drop_last()),
            account_id,
            types.last().0,
            types.last().1,
            other_account,
            other_type,
        );
    }
}

/// Each cell of the folded response holds the change id that was written to it
/// last, and a cell that nothing was written to is absent.
pub proof fn law_fold_holds_last_written(
    changes: Seq<StateChangeView>,
    account_id: u32,
    type_state: TypeState,
)
    ensures
        cell(fold_changes(changes), account_id, type_state) == last_written(
            changes,
            account_id,
            type_state,
        ),
    decreases changes.len(),
{
    if changes.len() == 0 {
        lemma_account_position(Seq::<AccountChangesView>::empty(), account_id);
    } else {
        law_fold_holds_last_written(changes.drop_last(), account_id, type_state);
        lemma_fold_types_cell(
            fold_changes(changes.drop_last()),
            changes.last().account_id,
            changes.last().types,
            account_id,
            type_state,
        );
    }
}

proof fn lemma_ascending_types(
    types: Seq<(TypeState, u64)>,
    type_state: TypeState,
    floor: Option<u64>,
)
    requires
        types_ascend(types, type_state, floor),
    ensures
        last_in_types(types, type_state) == max_in_types(types, type_state),
        max_in_types(types, type_state) is Some ==> greater(
            floor,
            max_in_types(types, type_state),
        ) == max_in_types(types, type_state),
    decreases types.len(),
{
    if types.len() > 0 {
        lemma_ascending_types(types.drop_last(), type_state, floor);
    }
}

/// Where the change ids written to a cell never go down, the one written last
/// is the greatest.
pub proof fn law_last_written_is_greatest(
    changes: Seq<StateChangeView>,
    account_id: u32,
    type_state: TypeState,
)
    requires
        ascends(changes, account_id, type_state),
    ensures
        last_written(changes, account_id, type_state) == max_written(
            changes,
            account_id,
            type_state,
        ),
    decreases changes.len(),
{
    if changes.len() > 0 {
        law_last_written_is_greatest(changes.drop_last(), account_id, type_state);
        if changes.last().account_id == account_id {
            lemma_ascending_types(
                changes.last().types,
                type_state,
                max_written(changes.drop_last(), account_id, type_state),
            );
        }
    }
}

/// Folding changes whose ids for a cell never go down yields the greatest
/// change id seen for that cell.
pub proof fn law_fold_yields_greatest(
    changes: Seq<StateChangeView>,
    account_id: u32,
    type_state: TypeState,
)
    requires
        ascends(changes, account_id, type_state),
    ensures
        cell(fold_changes(changes), account_id, type_state) == max_written(
            changes,
            account_id,
            type_state,
        ),
{
    law_fold_holds_last_written(changes, account_id, type_state);
    law_last_written_is_greatest(changes, account_id, type_state);
}

impl AccountChanges {
    /// Sets the change id of `type_state`.
    pub fn set(&mut self, type_state: TypeState, change_id: u64)
        ensures
            final(self).account_id == old(self).account_id,
            final(self).types@ == set_type(old(self).types@, type_state, change_id),
    {
        let mut i: usize = 0;
        while i < self.types.len()
            invariant
                i <= self.types.len(),
                self.types@ == old(self).types@,
                self.account_id == old(self).account_id,
                forall|k: int| 0 <= k < i ==> (#[trigger] self.types@[k]).0 != type_state,
            decreases self.types.len() - i,
        {
            if self.types[i].0 == type_state {
                proof {
                    lemma_type_position_is(self.types@, type_state, i as int);
                }
                self.types[i] = (type_state, change_id);
                return ;
            }
            i += 1;
        }
        proof {
            lemma_type_position_is(self.types@, type_state, i as int);
        }
        self.types.push((type_state, change_id));
    }
}

impl StateChangeResponse {
    /// A response without changes.
    pub fn new() -> (response: StateChangeResponse)
        ensures
            response@ == Seq::<AccountChangesView>::empty(),
    {
        let response = StateChangeResponse { changed: Vec::new() };
        proof {
            assert(response@ =~= Seq::<AccountChangesView>::empty());
        }
        response
    }

    /// Sets the change id that `type_state` of `account_id` has reached.
    pub fn set(&mut self, account_id: u32, type_state: TypeState, change_id: u64)
        ensures
            final(self)@ == set_cell(old(self)@, account_id, type_state, change_id),
    {
        let mut i: usize = 0;
        while i < self.changed.len()
            invariant
                i <= self.changed.len(),
                self.changed@ == old(self).changed@,
                forall|k: int| 0 <= k < i ==> (#[trigger] self@[k]).account_id != account_id,
            decreases self.changed.len() - i,
        {
            if self.changed[i].account_id == account_id {
                proof {
                    lemma_account_position_is(self@, account_id, i as int);
                }
                self.changed[i].set(type_state, change_id);
                proof {
                    assert(self@ =~= set_cell(old(self)@, account_id, type_state, change_id));
                }
                return ;
            }
            i += 1;
        }
        proof {
            lemma_account_position_is(self@, account_id, i as int);
        }
        let mut types: Vec<(TypeState, u64)> = Vec::new();
        types.push((type_state, change_id));
        self.changed.push(AccountChanges { account_id, types });
        proof {
            assert(self@ =~= set_cell(old(self)@, account_id, type_state, change_id));
        }
    }

    /// The change id held for `type_state` of `account_id`.
    pub fn get(&self, account_id: u32, type_state: TypeState) -> (found: Option<u64>)
        ensures
            found == cell(self@, account_id, type_state),
    {
        let mut i: usize = 0;
        while i < self.changed.len()
            invariant
                i <= self.changed.len(),
                forall|k: int| 0 <= k < i ==> (#[trigger] self@[k]).account_id != account_id,
            decreases self.changed.len() - i,
        {
            if self.changed[i].account_id == account_id {
                proof {
                    lemma_account_position_is(self@, account_id, i as int);
                }
                let types = &self.changed[i].types;
                let mut j: usize = 0;
                while j < types.len()
                    invariant
                        j <= types.len(),
                        i < self.changed.len(),
                        account_position(self@, account_id) == i,
                        types@ == self@[i as int].types,
                        forall|k: int| 0 <= k < j ==> (#[trigger] types@[k]).0 != type_state,
                    decreases types.len() - j,
                {
                    if types[j].0 == type_state {
                        proof {
                            lemma_type_position_is(types@, type_state, j as int);
                        }
                        return Some(types[j].1);
                    }
                    j += 1;
                }
                proof {
                    lemma_type_position_is(types@, type_state, j as int);
                }
                return None;
            }
            i += 1;
        }
        proof {
            lemma_account_position_is(self@, account_id, i as int);
        }
        None
    }

    /// Folds queued changes into the response that reports them: the changes
    /// are written in their order, so that each cell holds what was written to
    /// it last.
    pub fn fold(changes: &Vec<StateChange>) -> (response: StateChangeResponse)
        ensures
            response@ == fold_changes(changes_view(changes@)),
    {
        let ghost all = changes_view(changes@);
        let mut response = StateChangeResponse::new();
        let mut i: usize = 0;
        proof {
            assert(all.take(0) =~= Seq::<StateChangeView>::empty());
        }
        while i < changes.len()
            invariant
                i <= changes.len(),
                all == changes_view(changes@),
                response@ == fold_changes(all.take(i as int)),
            decreases changes.len() - i,
        {
            let change = &changes[i];
            let ghost before = response@;
            let mut j: usize = 0;
            proof {
                assert(all.take(i + 1).drop_last() =~= all.take(i as int));
                assert(all.take(i + 1).last() == change@);
                assert(change.types@.take(0) =~= Seq::<(TypeState, u64)>::empty());
            }
            while j < change.types.len()
                invariant
                    j <= change.types.len(),
                    response@ == fold_types(before, change.account_id, change.types@.take(j as int)),
                decreases change.types.len() - j,
            {
                let entry = change.types[j];
                proof {
                    assert(change.types@.take(j + 1).drop_last() =~= change.types@.take(j as int));
                    assert(change.types@.take(j + 1).last() == entry);
                }
                response.set(change.account_id, entry.0, entry.1);
                j += 1;
            }
            proof {
                assert(change.types@.take(change.types.len() as int) =~= change.types@);
            }
            i += 1;
        }
        proof {
            assert(all.take(changes.len() as int) =~= all);
        }
        response
    }
}

} // verus!
