//! The index of latest records: a storage hash map of `ink_storage` from
//! customer, provider and plan to the position of the newest record of that
//! plan in the pair's history.
//!
//! Verus does not look inside the map. Its contents are named by
//! [`index_entries`], and each operation below states, without proof, what
//! the map's own method does to them.

use ink_env::AccountId;
use ink_storage::collections::HashMap;
use vstd::prelude::*;

verus! {

/// Customer, provider and plan.
pub type PlanKey = (AccountId, AccountId, u128);

/// The contents of an index as a mathematical map.
pub type IndexMap = Map<(AccountId, AccountId, u128), u128>;

/// A storage hash map from plan key to record position, never loaded from
/// contract storage: it is created empty and filled in memory.
#[verifier::external_body]
pub struct IndexStore {
    inner: HashMap<(AccountId, AccountId, u128), u128>,
}

/// The key-value pairs that an index holds.
pub uninterp spec fn index_entries(store: IndexStore) -> Map<(AccountId, AccountId, u128), u128>;

/// `HashMap::new`: a map without entries.
#[verifier::external_body]
pub(crate) fn index_new() -> (store: IndexStore)
    ensures
        index_entries(store) == IndexMap::empty(),
{
    IndexStore { inner: HashMap::new() }
}

/// `HashMap::len`: the number of keys in the map.
#[verifier::external_body]
pub(crate) fn index_len(store: &IndexStore) -> (count: u32)
    ensures
        count == index_entries(*store).dom().len(),
{
    store.inner.len()
}

/// `HashMap::get`: the value under `key`, if the map has that key. The map
/// is left as it was.
#[verifier::external_body]
pub(crate) fn index_get(store: &IndexStore, key: &(AccountId, AccountId, u128)) -> (found: Option<u128>)
    ensures
        index_entries(*store).dom().contains(*key) ==> found == Some(index_entries(*store)[*key]),
        !index_entries(*store).dom().contains(*key) ==> found.is_none(),
{
    store.inner.get(key).copied()
}

/// `HashMap::insert`: afterwards `key` maps to `position` and every other
/// key to what it mapped to before. The map counts its keys in 32 bits, so
/// a new key is only put into a map that holds fewer than `u32::MAX` of
/// them.
#[verifier::external_body]
pub(crate) fn index_insert(store: &mut IndexStore, key: (AccountId, AccountId, u128), position: u128)
    requires
        index_entries(*old(store)).dom().contains(key) || index_entries(*old(store)).dom().len() < u32::MAX,
    ensures
        index_entries(*final(store)) == index_entries(*old(store)).insert(key, position),
{
    store.inner.insert(key, position);
}

} // verus!
