//! What the manager is told, and what it asks its caller to do.

use vstd::prelude::*;
use crate::state_change::{changes_view, StateChange, StateChangeView};
use crate::subscription::{keys_view, Delivery, DeliveryView, EncryptionKeys, KeysView};

verus! {

/// A change to the set of subscriptions.
#[derive(Debug)]
pub enum PushUpdate {
    /// Ask the endpoint to confirm that it wants the subscription.
    Verify { id: u64, account_id: u32, url: String, code: String, keys: Option<EncryptionKeys> },
    /// Start delivering to the endpoint.
    Register { id: u64, url: String, keys: Option<EncryptionKeys> },
    /// Stop delivering to the endpoint.
    Unregister { id: u64 },
}

/// A [`PushUpdate`] as a mathematical value.
pub enum PushUpdateView {
    Verify { id: u64, account_id: u32, url: Seq<char>, code: Seq<char>, keys: Option<KeysView> },
    Register { id: u64, url: Seq<char>, keys: Option<KeysView> },
    Unregister { id: u64 },
}

impl View for PushUpdate {
    type V = PushUpdateView;

    open spec fn view(&self) -> PushUpdateView {
        match *self {
            PushUpdate::Verify { id, account_id, url, code, keys } => PushUpdateView::Verify {
                id,
                account_id,
                url: url@,
                code: code@,
                keys: keys_view(keys),
            },
            PushUpdate::Register { id, url, keys } => PushUpdateView::Register {
                id,
                url: url@,
                keys: keys_view(keys),
            },
            PushUpdate::Unregister { id } => PushUpdateView::Unregister { id },
        }
    }
}

/// The views of a sequence of updates, in the same order.
pub open spec fn updates_view(updates: Seq<PushUpdate>) -> Seq<PushUpdateView> {
    updates.map_values(|u: PushUpdate| u@)
}

/// A message to the manager.
#[derive(Debug)]
pub enum Event {
    /// Subscriptions were created, removed or ask for verification.
    Update { updates: Vec<PushUpdate> },
    /// A state change that the subscriptions `ids` are to be told of.
    Push { ids: Vec<u64>, state_change: StateChange },
    /// Forget every subscription.
    Reset,
    /// The request of subscription `id` went through.
    DeliverySuccess { id: u64 },
    /// The request of subscription `id` failed; these are the changes it
    /// carried.
    DeliveryFailure { id: u64, state_changes: Vec<StateChange> },
}

/// An [`Event`] as a mathematical value.
pub enum EventView {
    Update { updates: Seq<PushUpdateView> },
    Push { ids: Seq<u64>, state_change: StateChangeView },
    Reset,
    DeliverySuccess { id: u64 },
    DeliveryFailure { id: u64, state_changes: Seq<StateChangeView> },
}

impl View for Event {
    type V = EventView;

    open spec fn view(&self) -> EventView {
        match *self {
            Event::Update { updates } => EventView::Update { updates: updates_view(updates@) },
            Event::Push { ids, state_change } => EventView::Push {
                ids: ids@,
                state_change: state_change@,
            },
            Event::Reset => EventView::Reset,
            Event::DeliverySuccess { id } => EventView::DeliverySuccess { id },
            Event::DeliveryFailure { id, state_changes } => EventView::DeliveryFailure {
                id,
                state_changes: changes_view(state_changes@),
            },
        }
    }
}

/// A verification request that is to be posted.
#[derive(Debug)]
pub struct Verification {
    pub id: u64,
    pub account_id: u32,
    pub url: String,
    pub code: String,
    pub keys: Option<EncryptionKeys>,
}

/// A [`Verification`] as a mathematical value.
pub struct VerificationView {
    pub id: u64,
    pub account_id: u32,
    pub url: Seq<char>,
    pub code: Seq<char>,
    pub keys: Option<KeysView>,
}

impl View for Verification {
    type V = VerificationView;

    open spec fn view(&self) -> VerificationView {
        VerificationView {
            id: self.id,
            account_id: self.account_id,
            url: self.url@,
            code: self.code@,
            keys: keys_view(self.keys),
        }
    }
}

/// A request that the manager wants posted. The caller posts it and, for a
/// delivery, reports the outcome as an [`Event`].
#[derive(Debug)]
pub enum Action {
    Verify(Verification),
    Deliver(Delivery),
}

/// An [`Action`] as a mathematical value.
pub enum ActionView {
    Verify(VerificationView),
    Deliver(DeliveryView),
}

impl View for Action {
    type V = ActionView;

    open spec fn view(&self) -> ActionView {
        match *self {
            Action::Verify(v) => ActionView::Verify(v@),
            Action::Deliver(d) => ActionView::Deliver(d@),
        }
    }
}

/// The views of a sequence of actions, in the same order.
pub open spec fn actions_view(actions: Seq<Action>) -> Seq<ActionView> {
    actions.map_values(|a: Action| a@)
}

impl ActionView {
    /// Whether this is a delivery for subscription `id`.
    pub open spec fn delivers_to(self, id: u64) -> bool {
        self matches ActionView::Deliver(d) && d.id == id
    }

    /// Whether this is a verification request for `account_id`.
    pub open spec fn verifies(self, account_id: u32) -> bool {
        self matches ActionView::Verify(v) && v.account_id == account_id
    }
}

} // verus!
