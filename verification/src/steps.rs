//! The single changes of state that the operations are made of. Each does
//! to the contract what one step of the model does to its view.

use crate::contract::Subscrypt;
use crate::index_store::index_insert;
use crate::ledger::{view_after_entry, view_after_release, view_after_settlement, ProcessReturningData};
use crate::name_store::{addresses_get, addresses_insert, names_insert};
use crate::records::{HistoryView, PlanRecord, RecordView, SubscriptionRecord, User};
use ink_env::AccountId;
use vstd::prelude::*;

verus! {

impl Subscrypt {
    /// Registers `username` for `account`, unless the account has a username.
    pub(crate) fn remember_username(&mut self, account: AccountId, username: String)
        requires
            old(self).tables_wf(),
            old(self)@.username_room(account, username@),
        ensures
            final(self).tables_wf(),
            final(self)@ == old(self)@.with_username(account, username@),
            final(self).providers == old(self).providers,
            final(self).users == old(self).users,
            final(self).records == old(self).records,
    {
        if addresses_get(&self.address_to_username, &account).is_none() {
            names_insert(&mut self.username_to_address, username.clone(), account);
            addresses_insert(&mut self.address_to_username, account, username);
        }
    }

    /// Makes the customer known, and `provider` one of its providers where
    /// the two have no history yet.
    pub(crate) fn remember_customer(&mut self, user: AccountId, provider: AccountId, pass: [u8; 32])
        requires
            old(self).tables_wf(),
        ensures
            final(self).tables_wf(),
            final(self)@ == old(self)@.with_customer(user, provider, pass@),
            final(self).providers == old(self).providers,
            final(self).records == old(self).records,
    {
        let ghost before = *self;
        let has_history = self.records.contains_key(&(user, provider));
        match self.users.position(&user) {
            None => {
                let mut list: Vec<AccountId> = Vec::new();
                if !has_history {
                    list.push(provider);
                }
                self.users.push(user, User { list_of_providers: list, subs_crypt_pass_hash: pass });
                proof {
                    if !has_history {
                        assert(list@ =~= Seq::<AccountId>::empty().push(provider));
                    }
                    assert(self@.users =~= before@.with_customer(user, provider, pass@).users);
                }
            },
            Some(at) => {
                if !has_history {
                    let entry = self.users.value_at_mut(at);
                    entry.list_of_providers.push(provider);
                }
                proof {
                    assert(self@.users =~= before@.with_customer(user, provider, pass@).users);
                }
            },
        }
    }

    /// Puts a purchase behind the history of customer and provider, and
    /// lets the index of latest purchases point to it.
    pub(crate) fn append_record(&mut self, user: AccountId, record: SubscriptionRecord, pass: [u8; 32])
        requires
            old(self).tables_wf(),
            old(self)@.latest_room((user, record.provider, record.plan_index)),
        ensures
            final(self).tables_wf(),
            final(self)@ == old(self)@.with_record(user, record@, pass@),
            old(self)@.records.dom().contains((user, record.provider)) ==> old(self)@.records[(user, record.provider)].records.len()
                < usize::MAX,
            final(self).providers == old(self).providers,
            final(self).users == old(self).users,
    {
        let ghost before = *self;
        let ghost shown = record@;
        let pair = (user, record.provider);
        let key = (user, record.provider, record.plan_index);
        match self.records.position(&pair) {
            Some(at) => {
                let position = self.records.value_at(at).subscription_records.len();
                index_insert(&mut self.plan_index_to_record_index, key, position as u128);
                let history = self.records.value_at_mut(at);
                let ghost held = *history;
                history.subscription_records.push(record);
                proof {
                    assert(history.subscription_records.len() == held.subscription_records@.len() + 1);
                    assert(history@.records =~= held@.records.push(shown));
                }
                proof {
                    assert(self@.records =~= before@.with_record(user, shown, pass@).records);
                }
            },
            None => {
                index_insert(&mut self.plan_index_to_record_index, key, 0);
                let mut list: Vec<SubscriptionRecord> = Vec::new();
                list.push(record);
                let history = PlanRecord { subscription_records: list, pass_hash: pass };
                proof {
                    assert(history@.records =~= seq![shown]);
                }
                self.records.push(pair, history);
                proof {
                    assert(self@.records =~= before@.with_record(user, shown, pass@).records);
                }
            },
        }
    }

    /// Enters `amount` on `day` into the ledger of the provider at position
    /// `at`.
    pub(crate) fn add_entry(&mut self, at: usize, day: u64, amount: u128)
        requires
            old(self).tables_wf(),
            at < old(self).providers.keys().len(),
            old(self).ledger_at(at as int).has_room(amount),
        ensures
            final(self).tables_wf(),
            final(self)@ == old(self)@.with_ledger(
                old(self).providers.keys()[at as int],
                view_after_entry(old(self).ledger_at(at as int)@, day, amount),
            ),
            final(self).providers.keys() == old(self).providers.keys(),
            final(self).ledger_at(at as int).locked_total() == old(self).ledger_at(at as int).locked_total()
                + amount,
            final(self).users == old(self).users,
            final(self).records == old(self).records,
    {
        let ghost before = *self;
        proof {
            before.providers.lemma_entry(at as int);
        }
        let provider = self.providers.value_at_mut(at);
        provider.payment_manager.add_entry(day, amount);
        proof {
            let account = before.providers.keys()[at as int];
            let ledger = view_after_entry(before.ledger_at(at as int)@, day, amount);
            assert(self@.providers =~= before@.with_ledger(account, ledger).providers);
        }
    }

    /// Releases `amount` from `day` in the ledger of the provider at
    /// position `at`.
    pub(crate) fn remove_entry(&mut self, at: usize, day: u64, amount: u128)
        requires
            old(self).tables_wf(),
            at < old(self).providers.keys().len(),
            old(self).ledger_at(at as int)@.dom().contains(day),
            old(self).ledger_at(at as int)@[day] >= amount,
        ensures
            final(self).tables_wf(),
            final(self)@ == old(self)@.with_ledger(
                old(self).providers.keys()[at as int],
                view_after_release(old(self).ledger_at(at as int)@, day, amount),
            ),
            final(self).providers.keys() == old(self).providers.keys(),
            final(self).ledger_at(at as int).locked_total() == old(self).ledger_at(at as int).locked_total()
                - amount,
            final(self).ledger_at(at as int).stored_days() == old(self).ledger_at(at as int).stored_days(),
            final(self).ledger_at(at as int)@ == view_after_release(
                old(self).ledger_at(at as int)@,
                day,
                amount,
            ),
            final(self).users == old(self).users,
            final(self).records == old(self).records,
    {
        let ghost before = *self;
        proof {
            before.providers.lemma_entry(at as int);
        }
        let provider = self.providers.value_at_mut(at);
        provider.payment_manager.remove_entry(day, amount);
        proof {
            let account = before.providers.keys()[at as int];
            let ledger = view_after_release(before.ledger_at(at as int)@, day, amount);
            assert(self@.providers =~= before@.with_ledger(account, ledger).providers);
        }
    }

    /// Settles every day up to `cutoff` in the ledger of the provider at
    /// position `at`.
    pub(crate) fn settle_ledger(&mut self, at: usize, cutoff: u64) -> (outcome: ProcessReturningData)
        requires
            old(self).tables_wf(),
            at < old(self).providers.keys().len(),
        ensures
            final(self).tables_wf(),
            outcome == old(self).ledger_at(at as int).settlement(cutoff),
            final(self)@ == old(self)@.with_ledger(
                old(self).providers.keys()[at as int],
                view_after_settlement(old(self).ledger_at(at as int)@, cutoff),
            ),
            final(self).providers.keys() == old(self).providers.keys(),
            final(self).ledger_at(at as int).locked_total() == old(self).ledger_at(at as int).locked_total()
                - outcome.withdrawing_amount,
            final(self).users == old(self).users,
            final(self).records == old(self).records,
    {
        let ghost before = *self;
        proof {
            before.providers.lemma_entry(at as int);
        }
        let provider = self.providers.value_at_mut(at);
        let outcome = provider.payment_manager.settle(cutoff);
        proof {
            let account = before.providers.keys()[at as int];
            let ledger = view_after_settlement(before.ledger_at(at as int)@, cutoff);
            assert(self@.providers =~= before@.with_ledger(account, ledger).providers);
        }
        outcome
    }

    /// Marks the purchase at position `record` of the history at position
    /// `history` as refunded.
    pub(crate) fn mark_refunded(&mut self, history: usize, record: usize)
        requires
            old(self).tables_wf(),
            history < old(self).records.keys().len(),
            record < old(self).records.values()[history as int].subscription_records.len(),
        ensures
            final(self).tables_wf(),
            final(self)@ == (crate::model::SubscryptView {
                records: old(self)@.records.insert(
                    old(self).records.keys()[history as int],
                    HistoryView {
                        records: old(self).records.values()[history as int]@.records.update(
                            record as int,
                            RecordView {
                                refunded: true,
                                ..old(self).records.values()[history as int].subscription_records[record as int]@
                            },
                        ),
                        ..old(self).records.values()[history as int]@
                    },
                ),
                ..old(self)@
            }),
            final(self).providers == old(self).providers,
            final(self).users == old(self).users,
    {
        let ghost before = *self;
        proof {
            before.records.lemma_entry(history as int);
        }
        let entry = self.records.value_at_mut(history);
        let ghost held = *entry;
        entry.subscription_records[record].refunded = true;
        proof {
            assert(entry@.records =~= held@.records.update(
                record as int,
                RecordView { refunded: true, ..held.subscription_records[record as int]@ },
            ));
        }
        proof {
            let pair = before.records.keys()[history as int];
            assert(self@.records =~= before@.records.insert(pair, self.records.values()[history as int]@));
        }
    }
}

} // verus!
