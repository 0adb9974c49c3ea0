//! The contract's state and what is read from it.

use crate::error::Error;
use crate::index_store::{index_entries, index_get, index_new, IndexStore};
use crate::ledger::{LinkedList, ProcessReturningData};
use crate::model::{locked_of, SubscryptView};
use crate::name_store::{address_entries, addresses_new, name_entries, names_new, AddressStore, NameStore};
use crate::records::{HistoryView, PlanRecord, Provider, ProviderView, User, UserView};
use crate::table::Table;
use ink_env::AccountId;
use vstd::prelude::*;

verus! {

/// The views of the providers of a table.
pub open spec fn provider_views(providers: Map<AccountId, Provider>) -> Map<AccountId, ProviderView> {
    Map::new(|account: AccountId| providers.dom().contains(account), |account: AccountId| providers[account]@)
}

/// The views of the customers of a table.
pub open spec fn user_views(users: Map<AccountId, User>) -> Map<AccountId, UserView> {
    Map::new(|account: AccountId| users.dom().contains(account), |account: AccountId| users[account]@)
}

/// The views of the histories of a table.
pub open spec fn history_views(records: Map<(AccountId, AccountId), PlanRecord>) -> Map<(AccountId, AccountId), HistoryView> {
    Map::new(|pair: (AccountId, AccountId)| records.dom().contains(pair), |pair: (AccountId, AccountId)| records[pair]@)
}

/// The contract: plans and ledgers of the providers, the customers and
/// their purchases, and the registry of usernames.
pub struct Subscrypt {
    pub(crate) start_time: u64,
    pub(crate) provider_register_fee: u128,
    pub(crate) providers: Table<AccountId, Provider>,
    pub(crate) users: Table<AccountId, User>,
    pub(crate) records: Table<(AccountId, AccountId), PlanRecord>,
    pub(crate) plan_index_to_record_index: IndexStore,
    pub(crate) username_to_address: NameStore,
    pub(crate) address_to_username: AddressStore,
}

/// Where a purchase stands: the position of the pair's history among the
/// histories, and the position of the purchase in it.
pub(crate) struct Place {
    pub history: usize,
    pub record: usize,
}

impl Subscrypt {
    /// The contract as a mathematical value.
    pub open(crate) spec fn view(&self) -> SubscryptView {
        SubscryptView {
            start_time: self.start_time,
            provider_register_fee: self.provider_register_fee,
            providers: provider_views(self.providers@),
            users: user_views(self.users@),
            records: history_views(self.records@),
            latest: index_entries(self.plan_index_to_record_index),
            names: name_entries(self.username_to_address),
            addresses: address_entries(self.address_to_username),
        }
    }

    /// What holds of the tables and ledgers, whatever they hold.
    pub open(crate) spec fn tables_wf(&self) -> bool {
        &&& self.providers.wf()
        &&& self.users.wf()
        &&& self.records.wf()
        &&& forall|i: int| 0 <= i < self.providers.values().len() ==> (#[trigger] self.providers.values()[i]).payment_manager.wf()
    }

    /// Every provider's ledger is well formed.
    pub proof fn lemma_ledger_wf(&self, provider: AccountId)
        requires
            self.wf(),
            self@.providers.dom().contains(provider),
        ensures
            self.ledger_of(provider).wf(),
            self.ledger_of(provider)@ == self@.providers[provider].ledger,
    {
        let at = self.providers.keys().index_of(provider);
        assert(self.providers.keys().contains(provider));
        self.providers.lemma_entry(at);
        assert(self.providers.values()[at].payment_manager.wf());
    }

    /// The contract's invariant.
    pub open spec fn wf(&self) -> bool {
        self.tables_wf() && self@.wf()
    }

    /// The ledger of the provider at position `at`.
    pub(crate) open spec fn ledger_at(&self, at: int) -> LinkedList {
        self.providers.values()[at].payment_manager
    }

    /// The sum of all that is locked in the ledger of `provider`.
    pub open spec fn locked_total(&self, provider: AccountId) -> u128 {
        self.ledger_of(provider).locked_total()
    }

    /// Whether the ledger of `provider` can take what is locked for a
    /// purchase of the plan at `plan_index`.
    pub open spec fn ledger_room(&self, provider: AccountId, plan_index: u128) -> bool {
        self.ledger_of(provider).has_room(locked_of(self@.providers[provider].plans[plan_index as int]) as u128)
    }

    /// The ledger of `provider`.
    pub open(crate) spec fn ledger_of(&self, provider: AccountId) -> LinkedList {
        self.providers@[provider].payment_manager
    }

    /// The state of a contract without providers and customers, whose
    /// ledgers count their days from `start_time` and in which registering
    /// as a provider costs 100.
    pub open spec fn new_view(start_time: u64) -> SubscryptView {
        SubscryptView {
            start_time,
            provider_register_fee: 100,
            providers: Map::empty(),
            users: Map::empty(),
            records: Map::empty(),
            latest: Map::empty(),
            names: Map::empty(),
            addresses: Map::empty(),
        }
    }

    /// A contract without providers and customers, whose ledgers count
    /// their days from `start_time`. Registering as a provider costs 100.
    pub fn new(start_time: u64) -> (contract: Self)
        ensures
            contract.wf(),
            contract@ == Self::new_view(start_time),
    {
        let contract = Subscrypt {
            start_time,
            provider_register_fee: 100,
            providers: Table::new(),
            users: Table::new(),
            records: Table::new(),
            plan_index_to_record_index: index_new(),
            username_to_address: names_new(),
            address_to_username: addresses_new(),
        };
        proof {
            assert(contract@.providers =~= Map::empty());
            assert(contract@.users =~= Map::empty());
            assert(contract@.records =~= Map::empty());
        }
        contract
    }

    /// A contract without providers and customers, whose ledgers count
    /// their days from time 0.
    pub fn default() -> (contract: Self)
        ensures
            contract.wf(),
            contract@ == Self::new_view(0),
    {
        Self::new(0)
    }

    /// The time from which the ledgers count their days.
    pub fn start_time(&self) -> (time: u64)
        ensures
            time == self@.start_time,
    {
        self.start_time
    }

    /// What a provider pays to register.
    pub fn provider_register_fee(&self) -> (fee: u128)
        ensures
            fee == self@.provider_register_fee,
    {
        self.provider_register_fee
    }

    /// The position of `account` among the providers, if it is one.
    pub(crate) fn provider_place(&self, account: &AccountId) -> (found: Option<usize>)
        requires
            self.tables_wf(),
        ensures
            match found {
                Some(at) => {
                    &&& self@.providers.dom().contains(*account)
                    &&& at < self.providers.keys().len()
                    &&& self.providers.keys()[at as int] == *account
                    &&& self.providers.values()[at as int] == self.providers@[*account]
                    &&& self.providers.values()[at as int]@ == self@.providers[*account]
                },
                None => !self@.providers.dom().contains(*account),
            },
    {
        self.providers.position(account)
    }

    /// The place of the newest purchase of a plan by a customer, if there is
    /// one.
    pub(crate) fn latest_place(&self, user: &AccountId, provider: &AccountId, plan_index: u128) -> (found: Option<Place>)
        requires
            self.tables_wf(),
        ensures
            match found {
                Some(place) => {
                    &&& place.history < self.records.keys().len()
                    &&& self.records.keys()[place.history as int] == (*user, *provider)
                    &&& place.record < self.records.values()[place.history as int].subscription_records.len()
                    &&& place.record == self@.latest[(*user, *provider, plan_index)]
                    &&& self@.latest_record(*user, *provider, plan_index) == Some(
                        self.records.values()[place.history as int].subscription_records[place.record as int]@,
                    )
                },
                None => self@.latest_record(*user, *provider, plan_index).is_none(),
            },
    {
        let key = (*user, *provider, plan_index);
        let pair = (*user, *provider);
        match index_get(&self.plan_index_to_record_index, &key) {
            None => None,
            Some(position) => match self.records.position(&pair) {
                None => None,
                Some(history) => {
                    let records = &self.records.value_at(history).subscription_records;
                    if position < records.len() as u128 {
                        Some(Place { history, record: position as usize })
                    } else {
                        None
                    }
                },
            },
        }
    }

    /// Whether the customer's newest purchase of the plan is neither
    /// refunded nor matured at `time`.
    pub fn check_subscription(&self, user: AccountId, provider_address: AccountId, plan_index: u128, time: u64) -> (active: bool)
        requires
            self.wf(),
        ensures
            active == self@.subscribed(user, provider_address, plan_index, time),
    {
        match self.latest_place(&user, &provider_address, plan_index) {
            None => false,
            Some(place) => {
                let record = &self.records.value_at(place.history).subscription_records[place.record];
                proof {
                    self.lemma_record_in_range(place.history as int, place.record as int);
                }
                record.plan_index == plan_index && !record.refunded && time < record.subscription_time
                    + record.plan.duration
            },
        }
    }

    /// What settling the ledger of `provider_address` up to `day_id` would
    /// yield. The ledger is left as it is.
    pub fn process(&self, provider_address: AccountId, day_id: u64) -> (outcome: Result<ProcessReturningData, Error>)
        requires
            self.wf(),
        ensures
            outcome == (if self@.providers.dom().contains(provider_address) {
                Ok(self.ledger_of(provider_address).settlement(day_id))
            } else {
                Err(Error::ProviderNotFound)
            }),
    {
        match self.provider_place(&provider_address) {
            None => Err(Error::ProviderNotFound),
            Some(at) => Ok(self.providers.value_at(at).payment_manager.process(day_id)),
        }
    }

    /// The purchase at a place of the histories is one that the contract's
    /// invariant speaks of.
    pub(crate) proof fn lemma_record_in_range(&self, history: int, record: int)
        requires
            self.wf(),
            0 <= history < self.records.keys().len(),
            0 <= record < self.records.values()[history].subscription_records.len(),
        ensures
            self@.record_in_range(self.records.values()[history].subscription_records[record]@),
            self@.records.dom().contains(self.records.keys()[history]),
            self@.records[self.records.keys()[history]] == self.records.values()[history]@,
    {
        self.records.lemma_entry(history);
        let pair = self.records.keys()[history];
        assert(self@.records.dom().contains(pair));
        assert(self@.records[pair].records[record] == self.records.values()[history].subscription_records[record]@);
    }
}

impl Default for Subscrypt {
    /// A contract without providers and customers, whose ledgers count
    /// their days from time 0.
    fn default() -> (contract: Self)
        ensures
            contract.wf(),
            contract@ == Subscrypt::new_view(0),
    {
        Subscrypt::new(0)
    }
}

} // verus!
