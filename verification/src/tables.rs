//! The hash tables the manager keeps its state in, and what is taken on trust
//! about them.
//!
//! The tables are `ahash`'s `AHashMap` and `AHashSet`, which wrap the standard
//! library's `HashMap` and `HashSet` with another hasher. Nothing here is
//! proved: each function below makes one call and states what that call does
//! to the table's contents.

use vstd::prelude::*;
use ahash::{AHashMap, AHashSet, RandomState};
use crate::subscription::Subscription;

verus! {

/// `ahash::AHashMap`, carried as an opaque value.
#[verifier::external_type_specification]
#[verifier::external_body]
#[verifier::reject_recursive_types(K)]
#[verifier::reject_recursive_types(V)]
#[verifier::reject_recursive_types(S)]
pub struct ExAHashMap<K, V, S>(AHashMap<K, V, S>);

/// `ahash::AHashSet`, carried as an opaque value.
#[verifier::external_type_specification]
#[verifier::external_body]
#[verifier::reject_recursive_types(T)]
#[verifier::reject_recursive_types(S)]
pub struct ExAHashSet<T, S>(AHashSet<T, S>);

/// `ahash::RandomState`, the hasher of both tables, carried as an opaque
/// value.
#[verifier::external_type_specification]
#[verifier::external_body]
pub struct ExRandomState(RandomState);

/// The subscriptions a table holds, by id.
pub uninterp spec fn subscription_entries(table: AHashMap<u64, Subscription>) -> Map<
    u64,
    Subscription,
>;

/// The time of the latest verification a table holds for each account.
pub uninterp spec fn verification_entries(table: AHashMap<u32, u64>) -> Map<u32, u64>;

/// The ids a set holds.
pub uninterp spec fn pending_entries(set: AHashSet<u64>) -> Set<u64>;

/// Calls `AHashMap::default`, which makes a map without entries.
#[verifier::external_body]
pub(crate) fn new_subscriptions() -> (table: AHashMap<u64, Subscription>)
    ensures
        subscription_entries(table) =~= Map::empty(),
{
    AHashMap::default()
}

/// Calls `AHashMap::get`, which hands out the value stored under the key, if
/// there is one.
#[verifier::external_body]
pub(crate) fn subscription_at(table: &AHashMap<u64, Subscription>, id: u64) -> (found: Option<
    &Subscription,
>)
    ensures
        match found {
            Some(sub) => subscription_entries(*table).contains_key(id) && *sub
                == subscription_entries(*table)[id],
            None => !subscription_entries(*table).contains_key(id),
        },
{
    table.get(&id)
}

/// Calls `AHashMap::get_mut`, which lends the value stored under the key, if
/// there is one. What the borrower leaves in it is what the map then holds
/// under that key; no other entry changes.
#[verifier::external_body]
pub(crate) fn subscription_at_mut(table: &mut AHashMap<u64, Subscription>, id: u64) -> (found:
    Option<&mut Subscription>)
    ensures
        match found {
            Some(sub) => subscription_entries(*old(table)).contains_key(id) && *sub
                == subscription_entries(*old(table))[id] && subscription_entries(*final(table))
                == subscription_entries(*old(table)).insert(id, *final(sub)),
            None => !subscription_entries(*old(table)).contains_key(id) && subscription_entries(
                *final(table),
            ) == subscription_entries(*old(table)),
        },
{
    table.get_mut(&id)
}

/// Calls `AHashMap::insert`, which stores the value under the key and
/// replaces what was there.
#[verifier::external_body]
pub(crate) fn put_subscription(table: &mut AHashMap<u64, Subscription>, id: u64, sub: Subscription)
    ensures
        subscription_entries(*final(table)) == subscription_entries(*old(table)).insert(id, sub),
{
    table.insert(id, sub);
}

/// Calls `AHashMap::remove`, which takes the key and its value out of the map.
#[verifier::external_body]
pub(crate) fn drop_subscription(table: &mut AHashMap<u64, Subscription>, id: u64)
    ensures
        subscription_entries(*final(table)) == subscription_entries(*old(table)).remove(id),
{
    table.remove(&id);
}

/// Calls `HashMap::clear` through the map, which removes every entry.
#[verifier::external_body]
pub(crate) fn clear_subscriptions(table: &mut AHashMap<u64, Subscription>)
    ensures
        subscription_entries(*final(table)) =~= Map::empty(),
{
    table.clear();
}

/// Calls `AHashMap::default`, which makes a map without entries.
#[verifier::external_body]
pub(crate) fn new_verifications() -> (table: AHashMap<u32, u64>)
    ensures
        verification_entries(table) =~= Map::empty(),
{
    AHashMap::default()
}

/// Calls `AHashMap::get`, which hands out the value stored under the key, if
/// there is one.
#[verifier::external_body]
pub(crate) fn verification_at(table: &AHashMap<u32, u64>, account_id: u32) -> (found: Option<u64>)
    ensures
        found == (if verification_entries(*table).contains_key(account_id) {
            Some(verification_entries(*table)[account_id])
        } else {
            None
        }),
{
    table.get(&account_id).copied()
}

/// Calls `AHashMap::insert`, which stores the value under the key and
/// replaces what was there.
#[verifier::external_body]
pub(crate) fn put_verification(table: &mut AHashMap<u32, u64>, account_id: u32, at: u64)
    ensures
        verification_entries(*final(table)) == verification_entries(*old(table)).insert(
            account_id,
            at,
        ),
{
    table.insert(account_id, at);
}

/// Calls `AHashSet::default`, which makes a set without members.
#[verifier::external_body]
pub(crate) fn new_pending() -> (set: AHashSet<u64>)
    ensures
        pending_entries(set) =~= Set::empty(),
{
    AHashSet::default()
}

/// Calls `HashSet::insert` through the set, which adds the value.
#[verifier::external_body]
pub(crate) fn add_pending(set: &mut AHashSet<u64>, id: u64)
    ensures
        pending_entries(*final(set)) == pending_entries(*old(set)).insert(id),
{
    set.insert(id);
}

/// Calls `HashSet::remove` through the set, which takes the value out.
#[verifier::external_body]
pub(crate) fn drop_pending(set: &mut AHashSet<u64>, id: u64)
    ensures
        pending_entries(*final(set)) == pending_entries(*old(set)).remove(id),
{
    set.remove(&id);
}

/// Calls `HashSet::clear` through the set, which removes every member.
#[verifier::external_body]
pub(crate) fn clear_pending(set: &mut AHashSet<u64>)
    ensures
        pending_entries(*final(set)) =~= Set::empty(),
{
    set.clear();
}

/// Calls `HashSet::is_empty` through the set, which tells whether it has no
/// member.
#[verifier::external_body]
pub(crate) fn no_pending(set: &AHashSet<u64>) -> (none: bool)
    ensures
        none == pending_entries(*set).is_empty(),
{
    set.is_empty()
}

/// Calls `HashSet::iter` through the set and collects what it yields: every
/// member once, in an order that is not fixed.
#[verifier::external_body]
pub(crate) fn pending_list(set: &AHashSet<u64>) -> (ids: Vec<u64>)
    ensures
        ids@.no_duplicates(),
        ids@.to_set() == pending_entries(*set),
{
    set.iter().copied().collect()
}

} // verus!
