//! Account identifiers, and keys that can be told apart at run time.

use ink_env::AccountId;
use vstd::prelude::*;

verus! {

/// The host's account identifier: an opaque value of 32 bytes.
#[verifier::external_type_specification]
#[verifier::external_body]
pub struct ExAccountId(ink_env::AccountId);

/// `PartialEq::eq` of `AccountId`, which compares the 32 bytes: two
/// identifiers are told apart exactly if they differ.
#[verifier::external_body]
pub(crate) fn same_account(a: &AccountId, b: &AccountId) -> (same: bool)
    ensures
        same == (*a == *b),
{
    a == b
}

/// A key of a table: a value that can be compared for equality at run time.
pub trait Key: Sized {
    /// Whether the two keys are equal.
    fn same(&self, other: &Self) -> (same: bool)
        ensures
            same == (*self == *other),
    ;
}

impl Key for AccountId {
    fn same(&self, other: &Self) -> (same: bool) {
        same_account(self, other)
    }
}

impl Key for (AccountId, AccountId) {
    fn same(&self, other: &Self) -> (same: bool) {
        same_account(&self.0, &other.0) && same_account(&self.1, &other.1)
    }
}

} // verus!
