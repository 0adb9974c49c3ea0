//! The table of day buckets behind a ledger: a storage hash map of `ink_storage`
//! from a day to the amount locked on it and the next occupied day.
//!
//! Verus does not look inside the map. Its contents are named by
//! [`bucket_entries`], and each operation below states, without proof, what
//! the map's own method does to them.

use ink_storage::collections::HashMap;
use vstd::prelude::*;

verus! {

/// What a bucket holds: the locked amount and the next occupied day.
pub type Bucket = (u128, u64);

/// The contents of a store as a mathematical map.
pub type BucketMap = Map<u64, (u128, u64)>;

/// A storage hash map from day to bucket, never loaded from contract storage:
/// it is created empty and filled in memory.
#[verifier::external_body]
pub struct BucketStore {
    inner: HashMap<u64, (u128, u64)>,
}

/// The key-value pairs that a store holds.
pub uninterp spec fn bucket_entries(store: BucketStore) -> Map<u64, (u128, u64)>;

/// `HashMap::new`: a map without entries.
#[verifier::external_body]
pub(crate) fn store_new() -> (store: BucketStore)
    ensures
        bucket_entries(store) == BucketMap::empty(),
{
    BucketStore { inner: HashMap::new() }
}

/// `HashMap::len`: the number of keys in the map.
#[verifier::external_body]
pub(crate) fn store_len(store: &BucketStore) -> (count: u32)
    ensures
        count == bucket_entries(*store).dom().len(),
{
    store.inner.len()
}

/// `HashMap::get`: the value under `day`, if the map has that key. The map
/// is left as it was.
#[verifier::external_body]
pub(crate) fn store_get(store: &BucketStore, day: u64) -> (found: Option<(u128, u64)>)
    ensures
        bucket_entries(*store).dom().contains(day) ==> found == Some(bucket_entries(*store)[day]),
        !bucket_entries(*store).dom().contains(day) ==> found.is_none(),
{
    store.inner.get(&day).copied()
}

/// `HashMap::insert`: afterwards `day` maps to the given bucket and every
/// other key to what it mapped to before. The map counts its keys in 32
/// bits, so a new key is only put into a map that holds fewer than
/// `u32::MAX` of them.
#[verifier::external_body]
pub(crate) fn store_insert(store: &mut BucketStore, day: u64, amount: u128, next_day: u64)
    requires
        bucket_entries(*old(store)).dom().contains(day) || bucket_entries(*old(store)).dom().len() < u32::MAX,
    ensures
        bucket_entries(*final(store)) == bucket_entries(*old(store)).insert(day, (amount, next_day)),
{
    store.inner.insert(day, (amount, next_day));
}

} // verus!
