//! A customer's purchases, read back.

use crate::auth::{hash_pass_phrase, sha2x256_of_encoded};
use crate::contract::Subscrypt;
use crate::error::Error;
use crate::model::SubscryptView;
use crate::records::{record_views, same_hash, RecordView, SubscriptionRecord};
use ink_env::AccountId;
use vstd::prelude::*;

verus! {

impl SubscryptView {
    /// The purchases of `user` from each of `providers`, one provider after
    /// the other.
    pub open spec fn histories(self, user: AccountId, providers: Seq<AccountId>) -> Seq<RecordView>
        decreases providers.len(),
    {
        if providers.len() == 0 {
            Seq::empty()
        } else {
            self.histories(user, providers.drop_last()) + self.records[(user, providers.last())].records
        }
    }

    /// The purchases of `user` from `provider`, or why they are not given.
    pub open spec fn history_of(self, user: AccountId, provider: AccountId) -> Result<Seq<RecordView>, Error> {
        if !self.users.dom().contains(user) {
            Err(Error::UserNotFound)
        } else if !self.records.dom().contains((user, provider)) {
            Err(Error::RecordNotFound)
        } else {
            Ok(self.records[(user, provider)].records)
        }
    }

    /// All purchases of `user`, by provider in the order of the first
    /// purchase from each, or why they are not given.
    pub open spec fn whole_history_of(self, user: AccountId) -> Result<Seq<RecordView>, Error> {
        if !self.users.dom().contains(user) {
            Err(Error::UserNotFound)
        } else {
            Ok(self.histories(user, self.users[user].providers))
        }
    }

    /// The purchases from `provider` of the customer of that username, who
    /// shows `hash`, or why they are not given.
    pub open spec fn history_for_hash(self, username: Seq<char>, provider: AccountId, hash: Seq<u8>) -> Result<Seq<RecordView>, Error> {
        match self.account_of(username) {
            Err(error) => Err(error),
            Ok(user) => if !self.records.dom().contains((user, provider)) {
                Err(Error::RecordNotFound)
            } else if self.records[(user, provider)].pass_hash != hash {
                Err(Error::WrongAuth)
            } else {
                self.history_of(user, provider)
            },
        }
    }

    /// All purchases of the customer of that username, who shows `hash`, or
    /// why they are not given.
    pub open spec fn whole_history_for_hash(self, username: Seq<char>, hash: Seq<u8>) -> Result<Seq<RecordView>, Error> {
        match self.account_of(username) {
            Err(error) => Err(error),
            Ok(user) => if !self.users.dom().contains(user) {
                Err(Error::UserNotFound)
            } else if self.users[user].pass_hash != hash {
                Err(Error::WrongAuth)
            } else {
                self.whole_history_of(user)
            },
        }
    }
}

/// Whether `given` holds the records that `wanted` asks for, or the same
/// refusal.
pub open spec fn gives(given: Result<Vec<SubscriptionRecord>, Error>, wanted: Result<Seq<RecordView>, Error>) -> bool {
    match given {
        Ok(records) => wanted == Ok::<Seq<RecordView>, Error>(record_views(records@)),
        Err(error) => wanted == Err::<Seq<RecordView>, Error>(error),
    }
}

/// Puts copies of `records` behind `data`.
fn copy_records(data: &mut Vec<SubscriptionRecord>, records: &Vec<SubscriptionRecord>)
    ensures
        record_views(final(data)@) == record_views(old(data)@) + record_views(records@),
{
    let ghost before = data@;
    let mut at: usize = 0;
    while at < records.len()
        invariant
            at <= records.len(),
            record_views(data@) == record_views(before) + record_views(records@).take(at as int),
        decreases records.len() - at,
    {
        let copy = records[at].duplicate();
        let ghost held = data@;
        data.push(copy);
        at = at + 1;
        proof {
            assert(record_views(data@) =~= record_views(held).push(copy@));
            assert(record_views(data@) =~= record_views(before) + record_views(records@).take(at as int));
        }
    }
    proof {
        assert(record_views(records@).take(records.len() as int) =~= record_views(records@));
    }
}

impl Subscrypt {
    /// The purchases of `caller` from `provider_address`, oldest first.
    fn retrieve_data(&self, caller: AccountId, provider_address: AccountId) -> (outcome: Result<Vec<SubscriptionRecord>, Error>)
        requires
            self.wf(),
        ensures
            gives(outcome, self@.history_of(caller, provider_address)),
    {
        if !self.users.contains_key(&caller) {
            return Err(Error::UserNotFound);
        }
        let history = match self.records.get(&(caller, provider_address)) {
            None => {
                return Err(Error::RecordNotFound);
            },
            Some(history) => history,
        };
        let mut data: Vec<SubscriptionRecord> = Vec::new();
        copy_records(&mut data, &history.subscription_records);
        proof {
            assert(record_views(data@) =~= record_views(history.subscription_records@));
        }
        Ok(data)
    }

    /// All purchases of `caller`, by provider in the order of the first
    /// purchase from each.
    fn retrieve_whole_data(&self, caller: AccountId) -> (outcome: Result<Vec<SubscriptionRecord>, Error>)
        requires
            self.wf(),
        ensures
            gives(outcome, self@.whole_history_of(caller)),
    {
        let user = match self.users.get(&caller) {
            None => {
                return Err(Error::UserNotFound);
            },
            Some(user) => user,
        };
        let mut data: Vec<SubscriptionRecord> = Vec::new();
        let mut at: usize = 0;
        proof {
            assert(user.list_of_providers@.take(0) =~= Seq::<AccountId>::empty());
            assert(record_views(data@) =~= Seq::<RecordView>::empty());
        }
        while at < user.list_of_providers.len()
            invariant
                self.wf(),
                self@.users.dom().contains(caller),
                self@.users[caller] == user@,
                at <= user.list_of_providers.len(),
                record_views(data@) == self@.histories(caller, user.list_of_providers@.take(at as int)),
            decreases user.list_of_providers.len() - at,
        {
            let provider = user.list_of_providers[at];
            proof {
                assert(self@.users[caller].providers[at as int] == provider);
                assert(self@.records.dom().contains((caller, provider)));
            }
            match self.records.get(&(caller, provider)) {
                Some(history) => {
                    copy_records(&mut data, &history.subscription_records);
                },
                None => {},
            }
            at = at + 1;
            proof {
                let listed = user.list_of_providers@.take(at as int);
                assert(listed.drop_last() =~= user.list_of_providers@.take(at - 1));
                assert(listed.last() == provider);
            }
        }
        proof {
            assert(user.list_of_providers@.take(at as int) =~= user.list_of_providers@);
        }
        Ok(data)
    }

    /// The purchases of `caller` from `provider_address`, oldest first.
    /// Refused where the caller has never subscribed and where it has no
    /// purchase from that provider.
    pub fn retrieve_data_with_wallet(&self, caller: AccountId, provider_address: AccountId) -> (outcome: Result<
        Vec<SubscriptionRecord>,
        Error,
    >)
        requires
            self.wf(),
        ensures
            gives(outcome, self@.history_of(caller, provider_address)),
    {
        self.retrieve_data(caller, provider_address)
    }

    /// All purchases of `caller`, by provider in the order of the first
    /// purchase from each. Refused where the caller has never subscribed.
    pub fn retrieve_whole_data_with_wallet(&self, caller: AccountId) -> (outcome: Result<Vec<SubscriptionRecord>, Error>)
        requires
            self.wf(),
        ensures
            gives(outcome, self@.whole_history_of(caller)),
    {
        self.retrieve_whole_data(caller)
    }

    /// The purchases from `provider_address` of the customer of that
    /// username, who shows `hash`. Refused where the username is unknown,
    /// where the customer has no purchase from that provider, and where
    /// `hash` is not what the customer has set for the provider.
    pub fn retrieve_data_hashed(&self, username: &String, provider_address: AccountId, hash: &[u8; 32]) -> (outcome: Result<
        Vec<SubscriptionRecord>,
        Error,
    >)
        requires
            self.wf(),
        ensures
            gives(outcome, self@.history_for_hash(username@, provider_address, hash@)),
    {
        let user = match self.address_of_username(username) {
            Err(error) => {
                return Err(error);
            },
            Ok(user) => user,
        };
        match self.records.get(&(user, provider_address)) {
            None => {
                return Err(Error::RecordNotFound);
            },
            Some(history) => {
                if !same_hash(hash, &history.pass_hash) {
                    return Err(Error::WrongAuth);
                }
            },
        }
        self.retrieve_data(user, provider_address)
    }

    /// The purchases from `provider_address` of the customer of that
    /// username, whose pass phrase for the provider is `phrase`.
    pub fn retrieve_data_with_username(&self, username: String, provider_address: AccountId, phrase: String) -> (outcome: Result<
        Vec<SubscriptionRecord>,
        Error,
    >)
        requires
            self.wf(),
        ensures
            gives(outcome, self@.history_for_hash(username@, provider_address, sha2x256_of_encoded(phrase@))),
    {
        let hash = hash_pass_phrase(&phrase);
        self.retrieve_data_hashed(&username, provider_address, &hash)
    }

    /// All purchases of the customer of that username, who shows `hash`.
    /// Refused where the username is unknown, where the account has never
    /// subscribed, and where `hash` is not what the customer has set.
    pub fn retrieve_whole_data_hashed(&self, username: &String, hash: &[u8; 32]) -> (outcome: Result<Vec<SubscriptionRecord>, Error>)
        requires
            self.wf(),
        ensures
            gives(outcome, self@.whole_history_for_hash(username@, hash@)),
    {
        let user = match self.address_of_username(username) {
            Err(error) => {
                return Err(error);
            },
            Ok(user) => user,
        };
        match self.users.get(&user) {
            None => {
                return Err(Error::UserNotFound);
            },
            Some(known) => {
                if !same_hash(hash, &known.subs_crypt_pass_hash) {
                    return Err(Error::WrongAuth);
                }
            },
        }
        self.retrieve_whole_data(user)
    }

    /// All purchases of the customer of that username, whose pass phrase is
    /// `phrase`.
    pub fn retrieve_whole_data_with_username(&self, username: String, phrase: String) -> (outcome: Result<Vec<SubscriptionRecord>, Error>)
        requires
            self.wf(),
        ensures
            gives(outcome, self@.whole_history_for_hash(username@, sha2x256_of_encoded(phrase@))),
    {
        let hash = hash_pass_phrase(&phrase);
        self.retrieve_whole_data_hashed(&username, &hash)
    }
}

} // verus!
