//! The steps of the model keep the contract's invariant.

use crate::model::SubscryptView;
use crate::records::{HistoryView, RecordView};
use ink_env::AccountId;
use vstd::prelude::*;

verus! {

impl SubscryptView {
    /// Replacing the ledger of a provider keeps the invariant.
    pub proof fn lemma_with_ledger(self, provider: AccountId, ledger: Map<u64, u128>)
        requires
            self.wf(),
            self.providers.dom().contains(provider),
        ensures
            self.with_ledger(provider, ledger).wf(),
    {
        let after = self.with_ledger(provider, ledger);
        assert forall|account: AccountId| #[trigger] after.providers.dom().contains(account) implies after.providers[account].plans.len()
            == after.providers[account].characteristics.len() by {
            assert(self.providers.dom().contains(account));
        }
    }

    /// Registering a username keeps the invariant.
    pub proof fn lemma_with_username(self, account: AccountId, username: Seq<char>)
        requires
            self.wf(),
        ensures
            self.with_username(account, username).wf(),
    {
    }

    /// Recording a purchase keeps the invariant.
    pub proof fn lemma_with_record(self, user: AccountId, record: RecordView, pass: Seq<u8>)
        requires
            self.wf(),
            self.record_in_range(record),
            self.records.dom().contains((user, record.provider)) ==> self.records[(user, record.provider)].records.len()
                < usize::MAX,
        ensures
            self.with_record(user, record, pass).wf(),
    {
        let after = self.with_record(user, record, pass);
        let pair = (user, record.provider);
        let key = (user, record.provider, record.plan_index);
        assert forall|k: (AccountId, AccountId, u128)| #[trigger] after.latest.dom().contains(k) implies after.records.dom().contains(
            (k.0, k.1),
        ) && after.latest[k] < after.records[(k.0, k.1)].records.len() by {
            if k != key {
                assert(self.latest.dom().contains(k));
            }
        }
        assert forall|p: (AccountId, AccountId), i: int| #![trigger after.records[p].records[i]]
            after.records.dom().contains(p) && 0 <= i < after.records[p].records.len() implies after.record_in_range(
            after.records[p].records[i],
        ) by {
            if p == pair {
                if self.records.dom().contains(pair) {
                    if i < self.records[pair].records.len() {
                        assert(after.records[p].records[i] == self.records[pair].records[i]);
                    }
                }
            } else {
                assert(after.records[p].records[i] == self.records[p].records[i]);
            }
        }
        assert forall|u: AccountId, i: int| #![trigger after.users[u].providers[i]]
            after.users.dom().contains(u) && 0 <= i < after.users[u].providers.len() implies after.records.dom().contains(
            (u, after.users[u].providers[i]),
        ) by {
            assert(self.records.dom().contains((u, self.users[u].providers[i])));
        }
    }

    /// Making a customer known and recording its purchase keeps the
    /// invariant.
    pub proof fn lemma_with_customer_and_record(self, user: AccountId, record: RecordView, pass: Seq<u8>)
        requires
            self.wf(),
            self.record_in_range(record),
            self.records.dom().contains((user, record.provider)) ==> self.records[(user, record.provider)].records.len()
                < usize::MAX,
        ensures
            self.with_customer(user, record.provider, pass).with_record(user, record, pass).wf(),
    {
        let known = self.with_customer(user, record.provider, pass);
        let after = known.with_record(user, record, pass);
        let pair = (user, record.provider);
        let key = (user, record.provider, record.plan_index);
        assert(known.records == self.records);
        assert(known.latest == self.latest);
        assert forall|k: (AccountId, AccountId, u128)| #[trigger] after.latest.dom().contains(k) implies after.records.dom().contains(
            (k.0, k.1),
        ) && after.latest[k] < after.records[(k.0, k.1)].records.len() by {
            if k != key {
                assert(self.latest.dom().contains(k));
            }
        }
        assert forall|p: (AccountId, AccountId), i: int| #![trigger after.records[p].records[i]]
            after.records.dom().contains(p) && 0 <= i < after.records[p].records.len() implies after.record_in_range(
            after.records[p].records[i],
        ) by {
            if p == pair {
                if self.records.dom().contains(pair) {
                    if i < self.records[pair].records.len() {
                        assert(after.records[p].records[i] == self.records[pair].records[i]);
                    }
                }
            } else {
                assert(after.records[p].records[i] == self.records[p].records[i]);
            }
        }
        assert forall|u: AccountId, i: int| #![trigger after.users[u].providers[i]]
            after.users.dom().contains(u) && 0 <= i < after.users[u].providers.len() implies after.records.dom().contains(
            (u, after.users[u].providers[i]),
        ) by {
            if u == user {
                if self.users.dom().contains(user) && i < self.users[user].providers.len() {
                    assert(self.records.dom().contains((u, self.users[u].providers[i])));
                }
            } else {
                assert(self.records.dom().contains((u, self.users[u].providers[i])));
            }
        }
    }

    /// Marking a purchase as refunded keeps the invariant.
    pub proof fn lemma_refunded(self, pair: (AccountId, AccountId), at: int)
        requires
            self.wf(),
            self.records.dom().contains(pair),
            0 <= at < self.records[pair].records.len(),
        ensures
            (SubscryptView {
                records: self.records.insert(
                    pair,
                    HistoryView {
                        records: self.records[pair].records.update(
                            at,
                            RecordView { refunded: true, ..self.records[pair].records[at] },
                        ),
                        ..self.records[pair]
                    },
                ),
                ..self
            }).wf(),
    {
        let after = SubscryptView {
            records: self.records.insert(
                pair,
                HistoryView {
                    records: self.records[pair].records.update(at, RecordView { refunded: true, ..self.records[pair].records[at] }),
                    ..self.records[pair]
                },
            ),
            ..self
        };
        assert forall|k: (AccountId, AccountId, u128)| #[trigger] after.latest.dom().contains(k) implies after.records.dom().contains(
            (k.0, k.1),
        ) && after.latest[k] < after.records[(k.0, k.1)].records.len() by {
            assert(self.latest.dom().contains(k));
        }
        assert forall|p: (AccountId, AccountId), i: int| #![trigger after.records[p].records[i]]
            after.records.dom().contains(p) && 0 <= i < after.records[p].records.len() implies after.record_in_range(
            after.records[p].records[i],
        ) by {
            if p == pair {
                assert(self.record_in_range(self.records[pair].records[i]));
            } else {
                assert(after.records[p].records[i] == self.records[p].records[i]);
            }
        }
        assert forall|u: AccountId, i: int| #![trigger after.users[u].providers[i]]
            after.users.dom().contains(u) && 0 <= i < after.users[u].providers.len() implies after.records.dom().contains(
            (u, after.users[u].providers[i]),
        ) by {
            assert(self.records.dom().contains((u, self.users[u].providers[i])));
        }
    }
}

} // verus!
