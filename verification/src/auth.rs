//! Pass phrases and usernames: who is who, and who can show it.
//!
//! A pass phrase is never kept, only its hash. The hash is computed by the
//! host's library; what is done with it is decided here, in functions that
//! take the hash as an argument.

use crate::contract::Subscrypt;
use crate::error::Error;
use crate::model::SubscryptView;
use crate::name_store::{addresses_get, names_get};
use crate::records::{same_hash, HistoryView, ProviderView, UserView};
use ink_env::AccountId;
use vstd::prelude::*;

verus! {

/// The SHA-2 hash of 256 bits of the SCALE encoding of a string, as the
/// host's library computes it.
pub uninterp spec fn sha2x256_of_encoded(phrase: Seq<char>) -> Seq<u8>;

/// `ink_env::hash_encoded` with `Sha2x256`: the hash of the encoded string,
/// which depends on the string's characters alone.
#[verifier::external_body]
pub(crate) fn hash_pass_phrase(pass_phrase: &String) -> (hash: [u8; 32])
    ensures
        hash@ == sha2x256_of_encoded(pass_phrase@),
{
    let mut output = [0u8; 32];
    ink_env::hash_encoded::<ink_env::hash::Sha2x256, String>(pass_phrase, &mut output);
    output
}

impl SubscryptView {
    /// Whether `hash` is what the customer has set for the provider.
    pub open spec fn auth_matches(self, user: AccountId, provider: AccountId, hash: Seq<u8>) -> bool {
        self.records.dom().contains((user, provider)) && self.records[(user, provider)].pass_hash == hash
    }

    /// Whether `hash` is what the provider has set.
    pub open spec fn provider_auth_matches(self, provider: AccountId, hash: Seq<u8>) -> bool {
        self.providers.dom().contains(provider) && self.providers[provider].pass_hash == hash
    }

    /// Whether `hash` is what the customer has set.
    pub open spec fn user_auth_matches(self, user: AccountId, hash: Seq<u8>) -> bool {
        self.users.dom().contains(user) && self.users[user].pass_hash == hash
    }

    /// The account that is registered under `username`, or that there is none.
    pub open spec fn account_of(self, username: Seq<char>) -> Result<AccountId, Error> {
        if self.names.dom().contains(username) {
            Ok(self.names[username])
        } else {
            Err(Error::UsernameNotFound)
        }
    }

    /// Changing a customer's hash keeps the invariant.
    pub proof fn lemma_user_pass(self, user: AccountId, pass: Seq<u8>)
        requires
            self.wf(),
            self.users.dom().contains(user),
        ensures
            (SubscryptView { users: self.users.insert(user, UserView { pass_hash: pass, ..self.users[user] }), ..self }).wf(),
    {
        let after = SubscryptView { users: self.users.insert(user, UserView { pass_hash: pass, ..self.users[user] }), ..self };
        assert forall|u: AccountId, i: int| #![trigger after.users[u].providers[i]]
            after.users.dom().contains(u) && 0 <= i < after.users[u].providers.len() implies after.records.dom().contains(
            (u, after.users[u].providers[i]),
        ) by {
            assert(self.records.dom().contains((u, self.users[u].providers[i])));
        }
    }

    /// Changing a provider's hash keeps the invariant.
    pub proof fn lemma_provider_pass(self, provider: AccountId, pass: Seq<u8>)
        requires
            self.wf(),
            self.providers.dom().contains(provider),
        ensures
            (SubscryptView {
                providers: self.providers.insert(provider, ProviderView { pass_hash: pass, ..self.providers[provider] }),
                ..self
            }).wf(),
    {
        let after = SubscryptView {
            providers: self.providers.insert(provider, ProviderView { pass_hash: pass, ..self.providers[provider] }),
            ..self
        };
        assert forall|account: AccountId| #[trigger] after.providers.dom().contains(account) implies after.providers[account].plans.len()
            == after.providers[account].characteristics.len() by {
            assert(self.providers.dom().contains(account));
        }
    }

    /// Changing the hash of a history keeps the invariant.
    pub proof fn lemma_history_pass(self, pair: (AccountId, AccountId), pass: Seq<u8>)
        requires
            self.wf(),
            self.records.dom().contains(pair),
        ensures
            (SubscryptView { records: self.records.insert(pair, HistoryView { pass_hash: pass, ..self.records[pair] }), ..self }).wf(),
    {
        let after = SubscryptView { records: self.records.insert(pair, HistoryView { pass_hash: pass, ..self.records[pair] }), ..self };
        assert forall|k: (AccountId, AccountId, u128)| #[trigger] after.latest.dom().contains(k) implies after.records.dom().contains(
            (k.0, k.1),
        ) && after.latest[k] < after.records[(k.0, k.1)].records.len() by {
            assert(self.latest.dom().contains(k));
        }
        assert forall|p: (AccountId, AccountId), i: int| #![trigger after.records[p].records[i]]
            after.records.dom().contains(p) && 0 <= i < after.records[p].records.len() implies after.record_in_range(
            after.records[p].records[i],
        ) by {
            assert(after.records[p].records[i] == self.records[p].records[i]);
        }
        assert forall|u: AccountId, i: int| #![trigger after.users[u].providers[i]]
            after.users.dom().contains(u) && 0 <= i < after.users[u].providers.len() implies after.records.dom().contains(
            (u, after.users[u].providers[i]),
        ) by {
            assert(self.records.dom().contains((u, self.users[u].providers[i])));
        }
    }
}

impl Subscrypt {
    /// Sets the hash of the caller's pass phrase. Refused, with nothing
    /// changed, where the caller has never subscribed.
    pub fn set_user_subscrypt_pass(&mut self, caller: AccountId, pass: [u8; 32]) -> (outcome: Result<(), Error>)
        requires
            old(self).wf(),
        ensures
            final(self).wf(),
            match outcome {
                Ok(_) => old(self)@.users.dom().contains(caller) && final(self)@ == (SubscryptView {
                    users: old(self)@.users.insert(caller, UserView { pass_hash: pass@, ..old(self)@.users[caller] }),
                    ..old(self)@
                }),
                Err(error) => error == Error::UserNotFound && !old(self)@.users.dom().contains(caller) && *final(self)
                    == *old(self),
            },
    {
        let at = match self.users.position(&caller) {
            None => {
                return Err(Error::UserNotFound);
            },
            Some(at) => at,
        };
        let ghost before = *self;
        let user = self.users.value_at_mut(at);
        user.subs_crypt_pass_hash = pass;
        proof {
            let after = SubscryptView {
                users: before@.users.insert(caller, UserView { pass_hash: pass@, ..before@.users[caller] }),
                ..before@
            };
            assert(self@.users =~= after.users);
            before@.lemma_user_pass(caller, pass@);
        }
        Ok(())
    }

    /// Sets the hash of the caller's pass phrase for `provider_address`.
    /// Refused, with nothing changed, where the caller has no purchase from
    /// that provider.
    pub fn subs_crypt_pass_hash_for_each_provider(&mut self, caller: AccountId, provider_address: AccountId, pass: [u8; 32]) -> (outcome: Result<
        (),
        Error,
    >)
        requires
            old(self).wf(),
        ensures
            final(self).wf(),
            match outcome {
                Ok(_) => old(self)@.records.dom().contains((caller, provider_address)) && final(self)@ == (SubscryptView {
                    records: old(self)@.records.insert(
                        (caller, provider_address),
                        HistoryView { pass_hash: pass@, ..old(self)@.records[(caller, provider_address)] },
                    ),
                    ..old(self)@
                }),
                Err(error) => error == Error::RecordNotFound && !old(self)@.records.dom().contains((caller, provider_address))
                    && *final(self) == *old(self),
            },
    {
        let pair = (caller, provider_address);
        let at = match self.records.position(&pair) {
            None => {
                return Err(Error::RecordNotFound);
            },
            Some(at) => at,
        };
        let ghost before = *self;
        let history = self.records.value_at_mut(at);
        history.pass_hash = pass;
        proof {
            let after = SubscryptView {
                records: before@.records.insert(pair, HistoryView { pass_hash: pass@, ..before@.records[pair] }),
                ..before@
            };
            assert(self@.records =~= after.records);
            before@.lemma_history_pass(pair, pass@);
        }
        Ok(())
    }

    /// Sets the hash of the pass phrase of the provider `caller`. Refused,
    /// with nothing changed, where the caller is no provider.
    pub fn set_provider_subscrypt_pass(&mut self, caller: AccountId, pass: [u8; 32]) -> (outcome: Result<(), Error>)
        requires
            old(self).wf(),
        ensures
            final(self).wf(),
            match outcome {
                Ok(_) => old(self)@.providers.dom().contains(caller) && final(self)@ == (SubscryptView {
                    providers: old(self)@.providers.insert(
                        caller,
                        ProviderView { pass_hash: pass@, ..old(self)@.providers[caller] },
                    ),
                    ..old(self)@
                }),
                Err(error) => error == Error::NotRegistered && !old(self)@.providers.dom().contains(caller) && *final(self)
                    == *old(self),
            },
    {
        let at = match self.provider_place(&caller) {
            None => {
                return Err(Error::NotRegistered);
            },
            Some(at) => at,
        };
        let ghost before = *self;
        let provider = self.providers.value_at_mut(at);
        provider.subs_crypt_pass_hash = pass;
        proof {
            let after = SubscryptView {
                providers: before@.providers.insert(caller, ProviderView { pass_hash: pass@, ..before@.providers[caller] }),
                ..before@
            };
            before.providers.lemma_entry(at as int);
            assert(self@.providers =~= after.providers);
            before@.lemma_provider_pass(caller, pass@);
        }
        Ok(())
    }

    /// Whether `hash` is what `user` has set for `provider`.
    pub fn check_auth_hashed(&self, user: AccountId, provider: AccountId, hash: &[u8; 32]) -> (matches: bool)
        requires
            self.wf(),
        ensures
            matches == self@.auth_matches(user, provider, hash@),
    {
        match self.records.get(&(user, provider)) {
            Some(history) => same_hash(hash, &history.pass_hash),
            None => false,
        }
    }

    /// Whether `pass_phrase` hashes to what `user` has set for `provider`.
    pub fn check_auth(&self, user: AccountId, provider: AccountId, pass_phrase: String) -> (matches: bool)
        requires
            self.wf(),
        ensures
            matches == self@.auth_matches(user, provider, sha2x256_of_encoded(pass_phrase@)),
    {
        let hash = hash_pass_phrase(&pass_phrase);
        self.check_auth_hashed(user, provider, &hash)
    }

    /// The account that is registered under `username`.
    pub fn address_of_username(&self, username: &String) -> (outcome: Result<AccountId, Error>)
        ensures
            outcome == self@.account_of(username@),
    {
        match names_get(&self.username_to_address, username) {
            Some(account) => Ok(account),
            None => Err(Error::UsernameNotFound),
        }
    }

    /// Whether `pass_phrase` hashes to what the customer of that username
    /// has set for `provider`.
    pub fn check_auth_with_username(&self, username: String, provider: AccountId, pass_phrase: String) -> (outcome: Result<bool, Error>)
        requires
            self.wf(),
        ensures
            outcome == (match self@.account_of(username@) {
                Ok(user) => Ok(self@.auth_matches(user, provider, sha2x256_of_encoded(pass_phrase@))),
                Err(error) => Err(error),
            }),
    {
        match self.address_of_username(&username) {
            Ok(user) => Ok(self.check_auth(user, provider, pass_phrase)),
            Err(error) => Err(error),
        }
    }

    /// Whether `hash` is what `provider` has set.
    pub fn provider_check_auth_hashed(&self, provider: AccountId, hash: &[u8; 32]) -> (matches: bool)
        requires
            self.wf(),
        ensures
            matches == self@.provider_auth_matches(provider, hash@),
    {
        match self.provider_place(&provider) {
            Some(at) => same_hash(hash, &self.providers.value_at(at).subs_crypt_pass_hash),
            None => false,
        }
    }

    /// Whether `pass_phrase` hashes to what `provider` has set.
    pub fn provider_check_auth(&self, provider: AccountId, pass_phrase: String) -> (matches: bool)
        requires
            self.wf(),
        ensures
            matches == self@.provider_auth_matches(provider, sha2x256_of_encoded(pass_phrase@)),
    {
        let hash = hash_pass_phrase(&pass_phrase);
        self.provider_check_auth_hashed(provider, &hash)
    }

    /// Whether `pass_phrase` hashes to what the provider of that username
    /// has set.
    pub fn provider_check_auth_with_username(&self, username: String, pass_phrase: String) -> (outcome: Result<bool, Error>)
        requires
            self.wf(),
        ensures
            outcome == (match self@.account_of(username@) {
                Ok(provider) => Ok(self@.provider_auth_matches(provider, sha2x256_of_encoded(pass_phrase@))),
                Err(error) => Err(error),
            }),
    {
        match self.address_of_username(&username) {
            Ok(provider) => Ok(self.provider_check_auth(provider, pass_phrase)),
            Err(error) => Err(error),
        }
    }

    /// Whether `hash` is what `user` has set.
    pub fn user_check_auth_hashed(&self, user: AccountId, hash: &[u8; 32]) -> (matches: bool)
        requires
            self.wf(),
        ensures
            matches == self@.user_auth_matches(user, hash@),
    {
        match self.users.get(&user) {
            Some(known) => same_hash(hash, &known.subs_crypt_pass_hash),
            None => false,
        }
    }

    /// Whether `pass_phrase` hashes to what `user` has set.
    pub fn user_check_auth(&self, user: AccountId, pass_phrase: String) -> (matches: bool)
        requires
            self.wf(),
        ensures
            matches == self@.user_auth_matches(user, sha2x256_of_encoded(pass_phrase@)),
    {
        let hash = hash_pass_phrase(&pass_phrase);
        self.user_check_auth_hashed(user, &hash)
    }

    /// Whether `pass_phrase` hashes to what the customer of that username
    /// has set.
    pub fn user_check_auth_with_username(&self, username: String, pass_phrase: String) -> (outcome: Result<bool, Error>)
        requires
            self.wf(),
        ensures
            outcome == (match self@.account_of(username@) {
                Ok(user) => Ok(self@.user_auth_matches(user, sha2x256_of_encoded(pass_phrase@))),
                Err(error) => Err(error),
            }),
    {
        match self.address_of_username(&username) {
            Ok(user) => Ok(self.user_check_auth(user, pass_phrase)),
            Err(error) => Err(error),
        }
    }

    /// Whether no account is registered under `username`.
    pub fn is_username_available(&self, username: String) -> (available: bool)
        ensures
            available == !self@.names.dom().contains(username@),
    {
        names_get(&self.username_to_address, &username).is_none()
    }

    /// The username that is registered for `address`.
    pub fn get_username_by_address(&self, address: AccountId) -> (outcome: Result<String, Error>)
        ensures
            match outcome {
                Ok(username) => self@.addresses.dom().contains(address) && username@ == self@.addresses[address],
                Err(error) => error == Error::UsernameNotFound && !self@.addresses.dom().contains(address),
            },
    {
        match addresses_get(&self.address_to_username, &address) {
            Some(username) => Ok(username),
            None => Err(Error::UsernameNotFound),
        }
    }

    /// Whether the newest purchase of the plan by the customer of that
    /// username is neither refunded nor matured at `time`.
    pub fn check_subscription_with_username(&self, username: String, provider_address: AccountId, plan_index: u128, time: u64) -> (outcome: Result<
        bool,
        Error,
    >)
        requires
            self.wf(),
        ensures
            outcome == (match self@.account_of(username@) {
                Ok(user) => Ok(self@.subscribed(user, provider_address, plan_index, time)),
                Err(error) => Err(error),
            }),
    {
        match self.address_of_username(&username) {
            Ok(user) => Ok(self.check_subscription(user, provider_address, plan_index, time)),
            Err(error) => Err(error),
        }
    }
}

} // verus!
