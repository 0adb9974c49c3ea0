//! The contract as a mathematical value, and each operation as a function
//! on such values. The executable operations are proved to compute these.

use crate::error::{Error, TransferError};
use crate::events::SubscribeEvent;
use crate::ledger::{view_after_entry, view_after_release, view_after_settlement};
use crate::payment::{Payment, RefundPayments};
use crate::payout::{customer_refund_spec, immediate_payout_spec, locked_amount_spec, provider_refund_spec, MAX_SCALABLE_PRICE};
use crate::records::{HistoryView, PlanConsts, ProviderView, RecordView, UserView, DAY};
use ink_env::AccountId;
use vstd::prelude::*;

verus! {

/// The state of the contract.
pub struct SubscryptView {
    /// The time from which the ledgers count their days.
    pub start_time: u64,
    /// What a provider pays to register.
    pub provider_register_fee: u128,
    /// The providers, by account.
    pub providers: Map<AccountId, ProviderView>,
    /// The customers, by account.
    pub users: Map<AccountId, UserView>,
    /// The purchases, by customer and provider.
    pub records: Map<(AccountId, AccountId), HistoryView>,
    /// For customer, provider and plan, the position of the newest purchase
    /// of that plan in the pair's history.
    pub latest: Map<(AccountId, AccountId, u128), u128>,
    /// The accounts, by username.
    pub names: Map<Seq<char>, AccountId>,
    /// The usernames, by account.
    pub addresses: Map<AccountId, Seq<char>>,
}

/// The time at which the term of a purchase ends.
pub open spec fn maturity(record: RecordView) -> int {
    record.subscription_time + record.plan.duration
}

/// Whether a purchase is neither refunded nor matured at `time`. A purchase
/// is matured from the end of its term on.
pub open spec fn is_active(record: RecordView, time: u64) -> bool {
    !record.refunded && time < maturity(record)
}

/// What is locked for a purchase.
pub open spec fn locked_of(plan: PlanConsts) -> int {
    locked_amount_spec(plan.price as int, plan.max_refund_permille_policy as int)
}

/// Whether the terms of a plan can be accounted for: no more than a
/// thousand permille, and a price whose thousandfold fits in 128 bits.
pub open spec fn terms_in_range(plan: PlanConsts) -> bool {
    plan.max_refund_permille_policy <= 1000 && plan.price <= MAX_SCALABLE_PRICE
}

impl SubscryptView {
    /// The day of `time`, counted from the start of the contract.
    pub open spec fn day_of(self, time: int) -> int {
        (time - self.start_time) / (DAY as int)
    }

    /// The newest purchase of a plan by a customer, if there is one.
    pub open spec fn latest_record(self, user: AccountId, provider: AccountId, plan_index: u128) -> Option<RecordView> {
        if self.latest.dom().contains((user, provider, plan_index)) && self.records.dom().contains((user, provider))
            && self.latest[(user, provider, plan_index)] < self.records[(user, provider)].records.len() {
            Some(self.records[(user, provider)].records[self.latest[(user, provider, plan_index)] as int])
        } else {
            None
        }
    }

    /// Whether the customer's newest purchase of the plan is active at `time`.
    pub open spec fn subscribed(self, user: AccountId, provider: AccountId, plan_index: u128, time: u64) -> bool {
        match self.latest_record(user, provider, plan_index) {
            Some(record) => record.plan_index == plan_index && is_active(record, time),
            None => false,
        }
    }

    /// Whether a purchase can be accounted for in this contract: its terms
    /// are in range, its term begins no earlier than the contract, and its
    /// maturity fits in 64 bits.
    pub open spec fn record_in_range(self, record: RecordView) -> bool {
        &&& terms_in_range(record.plan)
        &&& self.start_time <= record.subscription_time
        &&& maturity(record) <= u64::MAX
    }

    /// What holds of every state of the contract.
    pub open spec fn wf(self) -> bool {
        &&& self.latest.dom().finite()
        &&& self.names.dom().finite()
        &&& self.addresses.dom().finite()
        &&& forall|key: (AccountId, AccountId, u128)| #[trigger]
            self.latest.dom().contains(key) ==> self.records.dom().contains((key.0, key.1)) && self.latest[key]
                < self.records[(key.0, key.1)].records.len()
        &&& forall|pair: (AccountId, AccountId), i: int| #![trigger self.records[pair].records[i]]
            self.records.dom().contains(pair) && 0 <= i < self.records[pair].records.len()
                ==> self.record_in_range(self.records[pair].records[i])
        &&& forall|pair: (AccountId, AccountId)| #[trigger]
            self.records.dom().contains(pair) ==> self.records[pair].records.len() <= usize::MAX
        &&& forall|provider: AccountId| #[trigger]
            self.providers.dom().contains(provider) ==> self.providers[provider].plans.len()
                == self.providers[provider].characteristics.len()
        &&& forall|user: AccountId, i: int| #![trigger self.users[user].providers[i]]
            self.users.dom().contains(user) && 0 <= i < self.users[user].providers.len()
                ==> self.records.dom().contains((user, self.users[user].providers[i]))
    }

    /// The state with the ledger of `provider` replaced.
    pub open spec fn with_ledger(self, provider: AccountId, ledger: Map<u64, u128>) -> SubscryptView {
        SubscryptView {
            providers: self.providers.insert(provider, ProviderView { ledger, ..self.providers[provider] }),
            ..self
        }
    }

    /// The state with a purchase put behind the history of customer and
    /// provider, and the index of latest purchases pointing to it. Where
    /// the pair has no history yet, one begins, under `pass`.
    pub open spec fn with_record(self, user: AccountId, record: RecordView, pass: Seq<u8>) -> SubscryptView {
        let pair = (user, record.provider);
        let key = (user, record.provider, record.plan_index);
        if self.records.dom().contains(pair) {
            SubscryptView {
                records: self.records.insert(
                    pair,
                    HistoryView { records: self.records[pair].records.push(record), ..self.records[pair] },
                ),
                latest: self.latest.insert(key, self.records[pair].records.len() as u128),
                ..self
            }
        } else {
            SubscryptView {
                records: self.records.insert(pair, HistoryView { records: seq![record], pass_hash: pass }),
                latest: self.latest.insert(key, 0),
                ..self
            }
        }
    }

    /// The state with the customer known: a customer that is new is put in
    /// under `pass`, and a provider that the customer has no history with is
    /// put behind the customer's providers.
    pub open spec fn with_customer(self, user: AccountId, provider: AccountId, pass: Seq<u8>) -> SubscryptView {
        let known = if self.users.dom().contains(user) {
            self.users[user]
        } else {
            UserView { providers: Seq::empty(), pass_hash: pass }
        };
        if self.records.dom().contains((user, provider)) {
            SubscryptView { users: self.users.insert(user, known), ..self }
        } else {
            SubscryptView {
                users: self.users.insert(user, UserView { providers: known.providers.push(provider), ..known }),
                ..self
            }
        }
    }

    /// The state with `username` registered for an account that has none.
    pub open spec fn with_username(self, account: AccountId, username: Seq<char>) -> SubscryptView {
        if self.addresses.dom().contains(account) {
            self
        } else {
            SubscryptView {
                names: self.names.insert(username, account),
                addresses: self.addresses.insert(account, username),
                ..self
            }
        }
    }

    /// Whether the two username stores can take a registration of
    /// `username` for `account`: each has the key already or holds fewer
    /// keys than 32 bits count.
    pub open spec fn username_room(self, account: AccountId, username: Seq<char>) -> bool {
        self.addresses.dom().contains(account) || ((self.names.dom().contains(username) || self.names.dom().len()
            < u32::MAX) && self.addresses.dom().len() < u32::MAX)
    }

    /// Whether the index of latest purchases can take `key`.
    pub open spec fn latest_room(self, key: (AccountId, AccountId, u128)) -> bool {
        self.latest.dom().contains(key) || self.latest.dom().len() < u32::MAX
    }

    /// Why a subscription is refused, if it is. The checks are made in this
    /// order; `ledger_room` says whether the provider's ledger can take the
    /// amount to lock.
    pub open spec fn subscribe_refusal(
        self,
        caller: AccountId,
        time: u64,
        paid: u128,
        provider: AccountId,
        plan_index: u128,
        username: Seq<char>,
        values: Seq<String>,
        ledger_room: bool,
    ) -> Option<Error> {
        if self.subscribed(caller, provider, plan_index, time) {
            Some(Error::AlreadySubscribed)
        } else if !self.providers.dom().contains(provider) {
            Some(Error::ProviderNotFound)
        } else if plan_index >= self.providers[provider].plans.len() {
            Some(Error::PlanNotFound)
        } else {
            let plan = self.providers[provider].plans[plan_index as int];
            if values.len() != self.providers[provider].characteristics[plan_index as int].len() {
                Some(Error::InvalidCharacteristics)
            } else if plan.price != paid {
                Some(Error::WrongPayment)
            } else if plan.disabled {
                Some(Error::PlanDisabled)
            } else if self.addresses.dom().contains(caller) && self.names.dom().contains(username)
                && self.names[username] != caller {
                Some(Error::InvalidUsername)
            } else if !terms_in_range(plan) || time < self.start_time || time + plan.duration > u64::MAX {
                Some(Error::TermsOutOfRange)
            } else if !ledger_room || !self.latest_room((caller, provider, plan_index)) || !self.username_room(
                caller,
                username,
            ) {
                Some(Error::LimitExceeded)
            } else {
                None
            }
        }
    }

    /// The payment that belongs to a subscription: the part of the price
    /// that is not locked, to the provider's money address.
    pub open spec fn subscribe_payment(self, provider: AccountId, plan_index: u128) -> Payment {
        let plan = self.providers[provider].plans[plan_index as int];
        Payment {
            to: self.providers[provider].money_address,
            amount: immediate_payout_spec(plan.price as int, plan.max_refund_permille_policy as int) as u128,
        }
    }

    /// The record that a subscription at `time` creates.
    pub open spec fn subscribe_record(self, time: u64, provider: AccountId, plan_index: u128, values: Seq<String>) -> RecordView {
        RecordView {
            provider,
            plan: self.providers[provider].plans[plan_index as int],
            plan_index,
            subscription_time: time,
            values,
            refunded: false,
        }
    }

    /// The state after a subscription that is not refused: the amount to
    /// lock is entered into the provider's ledger on the day of maturity,
    /// the customer and the username are made known, and the purchase is
    /// recorded.
    pub open spec fn subscribe_effect(
        self,
        caller: AccountId,
        time: u64,
        provider: AccountId,
        plan_index: u128,
        pass: Seq<u8>,
        username: Seq<char>,
        values: Seq<String>,
    ) -> SubscryptView {
        let record = self.subscribe_record(time, provider, plan_index, values);
        let day = self.day_of(maturity(record)) as u64;
        let ledger = view_after_entry(self.providers[provider].ledger, day, locked_of(record.plan) as u128);
        self.with_username(caller, username).with_customer(caller, provider, pass).with_record(caller, record, pass).with_ledger(
            provider,
            ledger,
        )
    }

    /// Why a renewal is refused, if it is. The checks are made in this
    /// order; `ledger_room` says whether the provider's ledger can take the
    /// amount to lock.
    pub open spec fn renew_refusal(
        self,
        caller: AccountId,
        time: u64,
        paid: u128,
        provider: AccountId,
        plan_index: u128,
        values: Seq<String>,
        ledger_room: bool,
    ) -> Option<Error> {
        match self.latest_record(caller, provider, plan_index) {
            None => Some(Error::NotSubscribed),
            Some(old) => {
                if old.plan_index != plan_index || old.refunded || maturity(old) < time {
                    Some(Error::NotSubscribed)
                } else if !self.providers.dom().contains(provider) {
                    Some(Error::ProviderNotFound)
                } else if plan_index >= self.providers[provider].plans.len() {
                    Some(Error::PlanNotFound)
                } else {
                    let plan = self.providers[provider].plans[plan_index as int];
                    let old_day = self.day_of(maturity(old)) as u64;
                    let ledger = self.providers[provider].ledger;
                    if plan.price != paid {
                        Some(Error::WrongPayment)
                    } else if plan.disabled {
                        Some(Error::PlanDisabled)
                    } else if values.len() + old.values.len() != self.providers[provider].characteristics[plan_index as int].len() {
                        Some(Error::InvalidCharacteristics)
                    } else if !terms_in_range(plan) || maturity(old) + plan.duration > u64::MAX {
                        Some(Error::TermsOutOfRange)
                    } else if !ledger.dom().contains(old_day) || ledger[old_day] < locked_of(old.plan) {
                        Some(Error::LockedFundsSettled)
                    } else if !ledger_room {
                        Some(Error::LimitExceeded)
                    } else {
                        None
                    }
                }
            },
        }
    }

    /// The record that a renewal creates: its term begins where the old one
    /// ends, and it carries the old values followed by the new ones.
    pub open spec fn renew_record(self, caller: AccountId, provider: AccountId, plan_index: u128, values: Seq<String>) -> RecordView {
        let old = self.latest_record(caller, provider, plan_index).unwrap();
        RecordView {
            provider,
            plan: self.providers[provider].plans[plan_index as int],
            plan_index,
            subscription_time: maturity(old) as u64,
            values: old.values + values,
            refunded: false,
        }
    }

    /// The state after a renewal that is not refused: what was locked for
    /// the old term is released from the day of its maturity, what is locked
    /// for the new term is entered on the day of its maturity, and the new
    /// purchase is recorded.
    pub open spec fn renew_effect(self, caller: AccountId, provider: AccountId, plan_index: u128, values: Seq<String>) -> SubscryptView {
        let old = self.latest_record(caller, provider, plan_index).unwrap();
        let record = self.renew_record(caller, provider, plan_index, values);
        let old_day = self.day_of(maturity(old)) as u64;
        let new_day = self.day_of(maturity(record)) as u64;
        let released = view_after_release(self.providers[provider].ledger, old_day, locked_of(old.plan) as u128);
        let ledger = view_after_entry(released, new_day, locked_of(record.plan) as u128);
        self.with_record(caller, record, self.records[(caller, provider)].pass_hash).with_ledger(provider, ledger)
    }

    /// Why a refund is refused, if it is. The checks are made in this order.
    pub open spec fn refund_refusal(self, caller: AccountId, time: u64, provider: AccountId, plan_index: u128) -> Option<Error> {
        if !self.subscribed(caller, provider, plan_index, time) {
            Some(Error::NotSubscribed)
        } else {
            let record = self.latest_record(caller, provider, plan_index).unwrap();
            let day = self.day_of(maturity(record)) as u64;
            if time < record.subscription_time {
                Some(Error::TermNotStarted)
            } else if !self.providers.dom().contains(provider) {
                Some(Error::ProviderNotFound)
            } else if !self.providers[provider].ledger.dom().contains(day) || self.providers[provider].ledger[day]
                < locked_of(record.plan) {
                Some(Error::LockedFundsSettled)
            } else {
                None
            }
        }
    }

    /// What the customer receives on a refund at `time`.
    pub open spec fn refund_to_customer(self, caller: AccountId, time: u64, provider: AccountId, plan_index: u128) -> int {
        let record = self.latest_record(caller, provider, plan_index).unwrap();
        customer_refund_spec(
            record.plan.price as int,
            record.plan.max_refund_permille_policy as int,
            time - record.subscription_time,
            record.plan.duration as int,
        )
    }

    /// What the provider receives on a refund at `time`.
    pub open spec fn refund_to_provider(self, caller: AccountId, time: u64, provider: AccountId, plan_index: u128) -> int {
        let record = self.latest_record(caller, provider, plan_index).unwrap();
        provider_refund_spec(
            record.plan.price as int,
            record.plan.max_refund_permille_policy as int,
            time - record.subscription_time,
            record.plan.duration as int,
        )
    }

    /// The payments that belong to a refund: the customer's part to the
    /// caller, and the provider's part, where there is any, to the
    /// provider's money address.
    pub open spec fn refund_payments(self, caller: AccountId, time: u64, provider: AccountId, plan_index: u128) -> RefundPayments {
        let to_provider = self.refund_to_provider(caller, time, provider, plan_index);
        RefundPayments {
            customer: Payment { to: caller, amount: self.refund_to_customer(caller, time, provider, plan_index) as u128 },
            provider: if to_provider > 0 {
                Some(Payment { to: self.providers[provider].money_address, amount: to_provider as u128 })
            } else {
                None
            },
        }
    }

    /// The state after a refund that is not refused: everything that was
    /// locked for the purchase is released from the day of its maturity, and
    /// the purchase is marked as refunded.
    pub open spec fn refund_effect(self, caller: AccountId, provider: AccountId, plan_index: u128) -> SubscryptView {
        let record = self.latest_record(caller, provider, plan_index).unwrap();
        let at = self.latest[(caller, provider, plan_index)] as int;
        let day = self.day_of(maturity(record)) as u64;
        let history = self.records[(caller, provider)];
        SubscryptView {
            records: self.records.insert(
                (caller, provider),
                HistoryView { records: history.records.update(at, RecordView { refunded: true, ..record }), ..history },
            ),
            ..self
        }.with_ledger(provider, view_after_release(self.providers[provider].ledger, day, locked_of(record.plan) as u128))
    }

    /// Why a withdrawal is refused before any payment, if it is.
    pub open spec fn withdraw_refusal(self, caller: AccountId, time: u64) -> Option<Error> {
        if !self.providers.dom().contains(caller) {
            Some(Error::NotRegistered)
        } else if time < self.start_time {
            Some(Error::TermsOutOfRange)
        } else {
            None
        }
    }

    /// The state after a withdrawal that is not refused: every day up to the
    /// day of `time` is settled in the caller's ledger.
    pub open spec fn withdraw_effect(self, caller: AccountId, time: u64) -> SubscryptView {
        self.with_ledger(caller, view_after_settlement(self.providers[caller].ledger, self.day_of(time as int) as u64))
    }
}

/// What an operation returns that makes one payment and then changes the
/// state: the refusal, where there is one; else the failure of the payment,
/// where it failed; else `done`.
pub open spec fn settled<T>(refusal: Option<Error>, transfer: Result<(), TransferError>, done: T) -> Result<T, Error> {
    match refusal {
        Some(error) => Err(error),
        None => match transfer {
            Err(failure) => Err(Error::of_transfer(failure)),
            Ok(_) => Ok(done),
        },
    }
}

/// The event that reports the purchase `record`.
pub open spec fn event_of(record: RecordView) -> SubscribeEvent {
    SubscribeEvent {
        provider: record.provider,
        plan_index: record.plan_index,
        subscription_time: record.subscription_time,
        duration: record.plan.duration,
    }
}

} // verus!
