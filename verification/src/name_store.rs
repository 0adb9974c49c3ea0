//! The two directions of the username registry: storage hash maps of
//! `ink_storage` from username to account and from account to username.
//!
//! Verus does not look inside the maps. Their contents are named by
//! [`name_entries`] and [`address_entries`], and each operation below states,
//! without proof, what the map's own method does to them.

use ink_env::AccountId;
use ink_storage::collections::HashMap;
use vstd::prelude::*;

verus! {

/// The contents of a map from username to account.
pub type NameMap = Map<Seq<char>, AccountId>;

/// The contents of a map from account to username.
pub type AddressMap = Map<AccountId, Seq<char>>;

/// A storage hash map from username to account, never loaded from contract
/// storage: it is created empty and filled in memory.
#[verifier::external_body]
pub struct NameStore {
    inner: HashMap<String, AccountId>,
}

/// A storage hash map from account to username, never loaded from contract
/// storage: it is created empty and filled in memory.
#[verifier::external_body]
pub struct AddressStore {
    inner: HashMap<AccountId, String>,
}

/// The accounts that a name store holds, by the characters of the username.
pub uninterp spec fn name_entries(store: NameStore) -> Map<Seq<char>, AccountId>;

/// The usernames that an address store holds, as characters, by account.
pub uninterp spec fn address_entries(store: AddressStore) -> Map<AccountId, Seq<char>>;

/// `HashMap::new`: a map without entries.
#[verifier::external_body]
pub(crate) fn names_new() -> (store: NameStore)
    ensures
        name_entries(store) == NameMap::empty(),
{
    NameStore { inner: HashMap::new() }
}

/// `HashMap::len`: the number of keys in the map.
#[verifier::external_body]
pub(crate) fn names_len(store: &NameStore) -> (count: u32)
    ensures
        count == name_entries(*store).dom().len(),
{
    store.inner.len()
}

/// `HashMap::get`: the account under `username`, if the map has that key.
/// The map is left as it was.
#[verifier::external_body]
pub(crate) fn names_get(store: &NameStore, username: &String) -> (found: Option<AccountId>)
    ensures
        name_entries(*store).dom().contains(username@) ==> found == Some(name_entries(*store)[username@]),
        !name_entries(*store).dom().contains(username@) ==> found.is_none(),
{
    store.inner.get(username).copied()
}

/// `HashMap::insert`: afterwards `username` maps to `account` and every
/// other key to what it mapped to before. The map counts its keys in 32
/// bits, so a new key is only put into a map that holds fewer than
/// `u32::MAX` of them.
#[verifier::external_body]
pub(crate) fn names_insert(store: &mut NameStore, username: String, account: AccountId)
    requires
        name_entries(*old(store)).dom().contains(username@) || name_entries(*old(store)).dom().len() < u32::MAX,
    ensures
        name_entries(*final(store)) == name_entries(*old(store)).insert(username@, account),
{
    store.inner.insert(username, account);
}

/// `HashMap::new`: a map without entries.
#[verifier::external_body]
pub(crate) fn addresses_new() -> (store: AddressStore)
    ensures
        address_entries(store) == AddressMap::empty(),
{
    AddressStore { inner: HashMap::new() }
}

/// `HashMap::len`: the number of keys in the map.
#[verifier::external_body]
pub(crate) fn addresses_len(store: &AddressStore) -> (count: u32)
    ensures
        count == address_entries(*store).dom().len(),
{
    store.inner.len()
}

/// `HashMap::get`: the username under `account`, if the map has that key.
/// The map is left as it was.
#[verifier::external_body]
pub(crate) fn addresses_get(store: &AddressStore, account: &AccountId) -> (found: Option<String>)
    ensures
        address_entries(*store).dom().contains(*account) ==> found.is_some() && found.unwrap()@
            == address_entries(*store)[*account],
        !address_entries(*store).dom().contains(*account) ==> found.is_none(),
{
    store.inner.get(account).cloned()
}

/// `HashMap::insert`: afterwards `account` maps to `username` and every
/// other key to what it mapped to before. The map counts its keys in 32
/// bits, so a new key is only put into a map that holds fewer than
/// `u32::MAX` of them.
#[verifier::external_body]
pub(crate) fn addresses_insert(store: &mut AddressStore, account: AccountId, username: String)
    requires
        address_entries(*old(store)).dom().contains(account) || address_entries(*old(store)).dom().len() < u32::MAX,
    ensures
        address_entries(*final(store)) == address_entries(*old(store)).insert(account, username@),
{
    store.inner.insert(account, username);
}

} // verus!
