//! The life of a subscription: purchase, renewal, refund, and the
//! provider's withdrawal of what has matured.
//!
//! An operation that pays money out comes in two parts. The first, which
//! leaves the contract as it is, says which payment belongs to the
//! operation, or why the operation is refused. The host makes the payment
//! and hands its outcome to the second part, which changes the contract only
//! where the operation is not refused and the payment was made.

use crate::account::same_account;
use crate::contract::Subscrypt;
use crate::error::{Error, TransferError};
use crate::events::SubscribeEvent;
use crate::index_store::{index_get, index_len};
use crate::model::{event_of, locked_of, maturity, settled};
use crate::name_store::{addresses_get, addresses_len, names_get, names_len};
use crate::payment::{Payment, RefundPayments};
use crate::payout::{immediate_payout, immediate_payout_spec, locked_amount, refund_split, MAX_SCALABLE_PRICE};
use crate::records::{clone_strings, PlanConsts, SubscriptionRecord, DAY};
use ink_env::AccountId;
use vstd::prelude::*;

verus! {

/// What a purchase that is not refused comes to.
pub(crate) struct Terms {
    /// The position of the provider among the providers.
    pub provider_at: usize,
    /// The plan as it is now.
    pub plan: PlanConsts,
    /// Where the provider's money goes.
    pub money_address: AccountId,
    /// The time at which the term begins.
    pub begins: u64,
    /// The day on which the term ends.
    pub day: u64,
    /// What is locked for the purchase.
    pub locked: u128,
    /// What the provider receives at once.
    pub payout: u128,
}

/// The list `front` followed by the list `rear`.
pub(crate) fn joined_strings(front: &Vec<String>, rear: &Vec<String>) -> (joined: Vec<String>)
    ensures
        joined@ == front@ + rear@,
{
    let mut joined = clone_strings(front);
    let mut at: usize = 0;
    while at < rear.len()
        invariant
            at <= rear.len(),
            joined@ == front@ + rear@.take(at as int),
        decreases rear.len() - at,
    {
        joined.push(rear[at].clone());
        at = at + 1;
        proof {
            assert(joined@ =~= front@ + rear@.take(at as int));
        }
    }
    proof {
        assert(rear@.take(rear.len() as int) =~= rear@);
    }
    joined
}

impl Subscrypt {
    /// Why a subscription is refused, if it is.
    pub open spec fn subscribe_refusal(
        &self,
        caller: AccountId,
        time: u64,
        paid: u128,
        provider: AccountId,
        plan_index: u128,
        username: Seq<char>,
        values: Seq<String>,
    ) -> Option<Error> {
        self@.subscribe_refusal(caller, time, paid, provider, plan_index, username, values, self.ledger_room(provider, plan_index))
    }

    /// Whether `terms` are those of a purchase of the plan at `plan_index`
    /// of `provider` whose term begins at `begins`.
    pub(crate) open spec fn terms_of(&self, terms: Terms, provider: AccountId, plan_index: u128, begins: u64) -> bool {
        let plan = self@.providers[provider].plans[plan_index as int];
        &&& terms.provider_at < self.providers.keys().len()
        &&& self.providers.keys()[terms.provider_at as int] == provider
        &&& self.providers.values()[terms.provider_at as int] == self.providers@[provider]
        &&& terms.plan == plan
        &&& terms.money_address == self@.providers[provider].money_address
        &&& terms.begins == begins
        &&& terms.day == self@.day_of(begins + plan.duration)
        &&& terms.locked == locked_of(plan)
        &&& terms.payout == immediate_payout_spec(plan.price as int, plan.max_refund_permille_policy as int)
    }

    /// The terms of a subscription, or why it is refused.
    fn subscribe_terms(
        &self,
        caller: &AccountId,
        time: u64,
        paid: u128,
        provider_address: &AccountId,
        plan_index: u128,
        username: &String,
        values: &Vec<String>,
    ) -> (outcome: Result<Terms, Error>)
        requires
            self.wf(),
        ensures
            match outcome {
                Ok(terms) => self.subscribe_refusal(*caller, time, paid, *provider_address, plan_index, username@, values@).is_none()
                    && self.terms_of(terms, *provider_address, plan_index, time),
                Err(error) => self.subscribe_refusal(*caller, time, paid, *provider_address, plan_index, username@, values@)
                    == Some(error),
            },
    {
        if self.check_subscription(*caller, *provider_address, plan_index, time) {
            return Err(Error::AlreadySubscribed);
        }
        let provider_at = match self.provider_place(provider_address) {
            None => {
                return Err(Error::ProviderNotFound);
            },
            Some(at) => at,
        };
        let provider = self.providers.value_at(provider_at);
        if plan_index >= provider.plans.len() as u128 {
            return Err(Error::PlanNotFound);
        }
        let index = plan_index as usize;
        let plan = provider.plans[index];
        proof {
            assert(self@.providers[*provider_address].characteristics[plan_index as int] == provider.plans_charastristics@[index as int]@);
        }
        if values.len() != provider.plans_charastristics[index].len() {
            return Err(Error::InvalidCharacteristics);
        }
        if plan.price != paid {
            return Err(Error::WrongPayment);
        }
        if plan.disabled {
            return Err(Error::PlanDisabled);
        }
        let has_username = addresses_get(&self.address_to_username, caller).is_some();
        if has_username {
            match names_get(&self.username_to_address, username) {
                Some(owner) => {
                    if !same_account(&owner, caller) {
                        return Err(Error::InvalidUsername);
                    }
                },
                None => {},
            }
        }
        if plan.max_refund_permille_policy > 1000 || plan.price > MAX_SCALABLE_PRICE || time < self.start_time
            || plan.duration > u64::MAX - time {
            return Err(Error::TermsOutOfRange);
        }
        let locked = locked_amount(plan.price, plan.max_refund_permille_policy);
        let payout = immediate_payout(plan.price, plan.max_refund_permille_policy);
        let key = (*caller, *provider_address, plan_index);
        let index_room = index_get(&self.plan_index_to_record_index, &key).is_some() || index_len(
            &self.plan_index_to_record_index,
        ) < u32::MAX;
        let name_room = has_username || ((names_get(&self.username_to_address, username).is_some() || names_len(
            &self.username_to_address,
        ) < u32::MAX) && addresses_len(&self.address_to_username) < u32::MAX);
        if !provider.payment_manager.can_add(locked) || !index_room || !name_room {
            return Err(Error::LimitExceeded);
        }
        let day = (time + plan.duration - self.start_time) / DAY;
        Ok(Terms { provider_at, plan, money_address: provider.money_address, begins: time, day, locked, payout })
    }

    /// The payment that belongs to a subscription, or why the subscription
    /// is refused. The contract is left as it is.
    pub fn subscribe_payment(
        &self,
        caller: AccountId,
        time: u64,
        paid: u128,
        provider_address: AccountId,
        plan_index: u128,
        username: &String,
        charastristics_values_encrypted: &Vec<String>,
    ) -> (outcome: Result<Payment, Error>)
        requires
            self.wf(),
        ensures
            outcome == (match self.subscribe_refusal(
                caller,
                time,
                paid,
                provider_address,
                plan_index,
                username@,
                charastristics_values_encrypted@,
            ) {
                Some(error) => Err(error),
                None => Ok(self@.subscribe_payment(provider_address, plan_index)),
            }),
    {
        match self.subscribe_terms(
            &caller,
            time,
            paid,
            &provider_address,
            plan_index,
            username,
            charastristics_values_encrypted,
        ) {
            Err(error) => Err(error),
            Ok(terms) => Ok(Payment { to: terms.money_address, amount: terms.payout }),
        }
    }

    /// Subscribes the caller to the plan at `plan_index` of
    /// `provider_address`, at `time` and with `paid` attached to the call.
    /// `transfer` is the outcome of the payment that
    /// [`Self::subscribe_payment`] names.
    ///
    /// The subscription is refused where the caller has an active
    /// subscription to the plan, where provider or plan do not exist, where
    /// the values are not as many as the plan's characteristics, where `paid`
    /// is not the price, where the plan is disabled, where the caller has a
    /// username and `username` belongs to another account, and where terms,
    /// time or capacity are out of range. Where it is not refused and the
    /// payment was made, the amount to lock is entered into the provider's
    /// ledger on the day of maturity and the purchase is recorded. In every
    /// other case the contract is left as it is.
    pub fn subscribe(
        &mut self,
        caller: AccountId,
        time: u64,
        paid: u128,
        provider_address: AccountId,
        plan_index: u128,
        pass: [u8; 32],
        username: String,
        charastristics_values_encrypted: Vec<String>,
        transfer: Result<(), TransferError>,
    ) -> (outcome: Result<SubscribeEvent, Error>)
        requires
            old(self).wf(),
        ensures
            final(self).wf(),
            outcome == settled(
                old(self).subscribe_refusal(
                    caller,
                    time,
                    paid,
                    provider_address,
                    plan_index,
                    username@,
                    charastristics_values_encrypted@,
                ),
                transfer,
                event_of(old(self)@.subscribe_record(time, provider_address, plan_index, charastristics_values_encrypted@)),
            ),
            outcome.is_ok() ==> final(self)@ == old(self)@.subscribe_effect(
                caller,
                time,
                provider_address,
                plan_index,
                pass@,
                username@,
                charastristics_values_encrypted@,
            ),
            outcome.is_ok() ==> final(self).locked_total(provider_address) == old(self).locked_total(provider_address)
                + locked_of(old(self)@.subscribe_record(time, provider_address, plan_index, charastristics_values_encrypted@).plan),
            outcome.is_err() ==> *final(self) == *old(self),
    {
        let terms = match self.subscribe_terms(
            &caller,
            time,
            paid,
            &provider_address,
            plan_index,
            &username,
            &charastristics_values_encrypted,
        ) {
            Err(error) => {
                return Err(error);
            },
            Ok(terms) => terms,
        };
        match transfer {
            Err(failure) => {
                return Err(Error::from_transfer(failure));
            },
            Ok(_) => {},
        }
        let ghost before = *self;
        let ghost shown = before@.subscribe_record(time, provider_address, plan_index, charastristics_values_encrypted@);
        let record = SubscriptionRecord {
            provider: provider_address,
            plan: terms.plan,
            plan_index,
            subscription_time: time,
            charastristics_values_encrypted,
            refunded: false,
        };
        proof {
            assert(record@ == shown);
        }
        let ghost name = username@;
        self.remember_username(caller, username);
        self.remember_customer(caller, provider_address, pass);
        self.append_record(caller, record, pass);
        self.add_entry(terms.provider_at, terms.day, terms.locked);
        proof {
            let named = before@.with_username(caller, name);
            before@.lemma_with_username(caller, name);
            named.lemma_with_customer_and_record(caller, shown, pass@);
            named.with_customer(caller, provider_address, pass@).with_record(caller, shown, pass@).lemma_with_ledger(
                provider_address,
                crate::ledger::view_after_entry(before@.providers[provider_address].ledger, terms.day, terms.locked),
            );
        }
        Ok(SubscribeEvent { provider: provider_address, plan_index, subscription_time: time, duration: terms.plan.duration })
    }

    /// Why a renewal is refused, if it is.
    pub open spec fn renew_refusal(
        &self,
        caller: AccountId,
        time: u64,
        paid: u128,
        provider: AccountId,
        plan_index: u128,
        values: Seq<String>,
    ) -> Option<Error> {
        self@.renew_refusal(caller, time, paid, provider, plan_index, values, self.ledger_room(provider, plan_index))
    }

    /// The terms of a renewal, or why it is refused.
    fn renew_terms(
        &self,
        caller: &AccountId,
        time: u64,
        paid: u128,
        provider_address: &AccountId,
        plan_index: u128,
        values: &Vec<String>,
    ) -> (outcome: Result<Terms, Error>)
        requires
            self.wf(),
        ensures
            match outcome {
                Ok(terms) => {
                    &&& self.renew_refusal(*caller, time, paid, *provider_address, plan_index, values@).is_none()
                    &&& self.terms_of(
                        terms,
                        *provider_address,
                        plan_index,
                        maturity(self@.latest_record(*caller, *provider_address, plan_index).unwrap()) as u64,
                    )
                },
                Err(error) => self.renew_refusal(*caller, time, paid, *provider_address, plan_index, values@) == Some(error),
            },
    {
        let place = match self.latest_place(caller, provider_address, plan_index) {
            None => {
                return Err(Error::NotSubscribed);
            },
            Some(place) => place,
        };
        let old = &self.records.value_at(place.history).subscription_records[place.record];
        proof {
            self.lemma_record_in_range(place.history as int, place.record as int);
        }
        let begins = old.subscription_time + old.plan.duration;
        if old.plan_index != plan_index || old.refunded || begins < time {
            return Err(Error::NotSubscribed);
        }
        let provider_at = match self.provider_place(provider_address) {
            None => {
                return Err(Error::ProviderNotFound);
            },
            Some(at) => at,
        };
        let provider = self.providers.value_at(provider_at);
        if plan_index >= provider.plans.len() as u128 {
            return Err(Error::PlanNotFound);
        }
        let index = plan_index as usize;
        let plan = provider.plans[index];
        proof {
            assert(self@.providers[*provider_address].characteristics[plan_index as int] == provider.plans_charastristics@[index as int]@);
        }
        if plan.price != paid {
            return Err(Error::WrongPayment);
        }
        if plan.disabled {
            return Err(Error::PlanDisabled);
        }
        if values.len() as u128 + old.charastristics_values_encrypted.len() as u128
            != provider.plans_charastristics[index].len() as u128 {
            return Err(Error::InvalidCharacteristics);
        }
        if plan.max_refund_permille_policy > 1000 || plan.price > MAX_SCALABLE_PRICE || plan.duration > u64::MAX
            - begins {
            return Err(Error::TermsOutOfRange);
        }
        let old_day = (begins - self.start_time) / DAY;
        let old_locked = locked_amount(old.plan.price, old.plan.max_refund_permille_policy);
        match provider.payment_manager.locked_at(old_day) {
            None => {
                return Err(Error::LockedFundsSettled);
            },
            Some(held) => {
                if held < old_locked {
                    return Err(Error::LockedFundsSettled);
                }
            },
        }
        let locked = locked_amount(plan.price, plan.max_refund_permille_policy);
        let payout = immediate_payout(plan.price, plan.max_refund_permille_policy);
        if !provider.payment_manager.can_add(locked) {
            return Err(Error::LimitExceeded);
        }
        let day = (begins + plan.duration - self.start_time) / DAY;
        Ok(Terms { provider_at, plan, money_address: provider.money_address, begins, day, locked, payout })
    }

    /// The payment that belongs to a renewal, or why the renewal is
    /// refused. The contract is left as it is.
    pub fn renew_payment(
        &self,
        caller: AccountId,
        time: u64,
        paid: u128,
        provider_address: AccountId,
        plan_index: u128,
        new_charastristics_values: &Vec<String>,
    ) -> (outcome: Result<Payment, Error>)
        requires
            self.wf(),
        ensures
            outcome == (match self.renew_refusal(caller, time, paid, provider_address, plan_index, new_charastristics_values@) {
                Some(error) => Err(error),
                None => Ok(self@.subscribe_payment(provider_address, plan_index)),
            }),
    {
        match self.renew_terms(&caller, time, paid, &provider_address, plan_index, new_charastristics_values) {
            Err(error) => Err(error),
            Ok(terms) => Ok(Payment { to: terms.money_address, amount: terms.payout }),
        }
    }

    /// Renews the caller's subscription to the plan at `plan_index` of
    /// `provider_address`, at `time` and with `paid` attached to the call.
    /// `transfer` is the outcome of the payment that [`Self::renew_payment`]
    /// names.
    ///
    /// The renewal is refused where the caller's newest purchase of the plan
    /// is refunded or its term ended before `time`, where provider or plan
    /// do not exist, where `paid` is not the price, where the plan is
    /// disabled, where old and new values together are not as many as the
    /// plan's characteristics, where what is locked for the old term has left
    /// the ledger, and where terms or capacity are out of range. Where it is
    /// not refused and the payment was made, what is locked for the old term
    /// is released, what is locked for the new term is entered, and the new
    /// purchase is recorded, its term beginning where the old one ends. In
    /// every other case the contract is left as it is.
    pub fn renew(
        &mut self,
        caller: AccountId,
        time: u64,
        paid: u128,
        provider_address: AccountId,
        plan_index: u128,
        new_charastristics_values: Vec<String>,
        transfer: Result<(), TransferError>,
    ) -> (outcome: Result<SubscribeEvent, Error>)
        requires
            old(self).wf(),
        ensures
            final(self).wf(),
            outcome == settled(
                old(self).renew_refusal(caller, time, paid, provider_address, plan_index, new_charastristics_values@),
                transfer,
                event_of(old(self)@.renew_record(caller, provider_address, plan_index, new_charastristics_values@)),
            ),
            outcome.is_ok() ==> final(self)@ == old(self)@.renew_effect(
                caller,
                provider_address,
                plan_index,
                new_charastristics_values@,
            ),
            outcome.is_ok() ==> final(self).locked_total(provider_address) == old(self).locked_total(provider_address)
                - locked_of(old(self)@.latest_record(caller, provider_address, plan_index).unwrap().plan) + locked_of(
                old(self)@.renew_record(caller, provider_address, plan_index, new_charastristics_values@).plan,
            ),
            outcome.is_err() ==> *final(self) == *old(self),
    {
        let terms = match self.renew_terms(&caller, time, paid, &provider_address, plan_index, &new_charastristics_values) {
            Err(error) => {
                return Err(error);
            },
            Ok(terms) => terms,
        };
        match transfer {
            Err(failure) => {
                return Err(Error::from_transfer(failure));
            },
            Ok(_) => {},
        }
        let ghost before = *self;
        let ghost shown = before@.renew_record(caller, provider_address, plan_index, new_charastristics_values@);
        let place = self.latest_place(&caller, &provider_address, plan_index).unwrap();
        let history = self.records.value_at(place.history);
        let old = &history.subscription_records[place.record];
        let pass = history.pass_hash;
        let old_day = (terms.begins - self.start_time) / DAY;
        let old_locked = locked_amount(old.plan.price, old.plan.max_refund_permille_policy);
        let record = SubscriptionRecord {
            provider: provider_address,
            plan: terms.plan,
            plan_index,
            subscription_time: terms.begins,
            charastristics_values_encrypted: joined_strings(&old.charastristics_values_encrypted, &new_charastristics_values),
            refunded: false,
        };
        proof {
            before.lemma_record_in_range(place.history as int, place.record as int);
            assert(record@ == shown);
        }
        self.append_record(caller, record, pass);
        self.remove_entry(terms.provider_at, old_day, old_locked);
        self.add_entry(terms.provider_at, terms.day, terms.locked);
        proof {
            let released = crate::ledger::view_after_release(before@.providers[provider_address].ledger, old_day, old_locked);
            let entered = crate::ledger::view_after_entry(released, terms.day, terms.locked);
            let recorded = before@.with_record(caller, shown, pass@);
            before@.lemma_with_record(caller, shown, pass@);
            recorded.lemma_with_ledger(provider_address, entered);
            assert(recorded.with_ledger(provider_address, released).with_ledger(provider_address, entered).providers
                =~= recorded.with_ledger(provider_address, entered).providers);
        }
        Ok(
            SubscribeEvent {
                provider: provider_address,
                plan_index,
                subscription_time: terms.begins,
                duration: terms.plan.duration,
            },
        )
    }

    /// The place of the purchase that a refund is about and the position of
    /// its provider, or why the refund is refused.
    fn refund_place(&self, caller: &AccountId, time: u64, provider_address: &AccountId, plan_index: u128) -> (outcome: Result<
        (crate::contract::Place, usize),
        Error,
    >)
        requires
            self.wf(),
        ensures
            match outcome {
                Ok((place, provider_at)) => {
                    &&& self@.refund_refusal(*caller, time, *provider_address, plan_index).is_none()
                    &&& place.history < self.records.keys().len()
                    &&& self.records.keys()[place.history as int] == (*caller, *provider_address)
                    &&& place.record < self.records.values()[place.history as int].subscription_records.len()
                    &&& place.record == self@.latest[(*caller, *provider_address, plan_index)]
                    &&& self@.latest_record(*caller, *provider_address, plan_index) == Some(
                        self.records.values()[place.history as int].subscription_records[place.record as int]@,
                    )
                    &&& provider_at < self.providers.keys().len()
                    &&& self.providers.keys()[provider_at as int] == *provider_address
                    &&& self.providers.values()[provider_at as int] == self.providers@[*provider_address]
                },
                Err(error) => self@.refund_refusal(*caller, time, *provider_address, plan_index) == Some(error),
            },
    {
        if !self.check_subscription(*caller, *provider_address, plan_index, time) {
            return Err(Error::NotSubscribed);
        }
        let place = self.latest_place(caller, provider_address, plan_index).unwrap();
        let record = &self.records.value_at(place.history).subscription_records[place.record];
        proof {
            self.lemma_record_in_range(place.history as int, place.record as int);
        }
        if time < record.subscription_time {
            return Err(Error::TermNotStarted);
        }
        let provider_at = match self.provider_place(provider_address) {
            None => {
                return Err(Error::ProviderNotFound);
            },
            Some(at) => at,
        };
        let day = (record.subscription_time + record.plan.duration - self.start_time) / DAY;
        let locked = locked_amount(record.plan.price, record.plan.max_refund_permille_policy);
        match self.providers.value_at(provider_at).payment_manager.locked_at(day) {
            None => {
                return Err(Error::LockedFundsSettled);
            },
            Some(held) => {
                if held < locked {
                    return Err(Error::LockedFundsSettled);
                }
            },
        }
        Ok((place, provider_at))
    }

    /// The payments that belong to a refund, or why the refund is refused.
    /// The contract is left as it is.
    pub fn refund_payments(&self, caller: AccountId, time: u64, provider_address: AccountId, plan_index: u128) -> (outcome: Result<
        RefundPayments,
        Error,
    >)
        requires
            self.wf(),
        ensures
            outcome == (match self@.refund_refusal(caller, time, provider_address, plan_index) {
                Some(error) => Err(error),
                None => Ok(self@.refund_payments(caller, time, provider_address, plan_index)),
            }),
    {
        let (place, provider_at) = match self.refund_place(&caller, time, &provider_address, plan_index) {
            Err(error) => {
                return Err(error);
            },
            Ok(found) => found,
        };
        let record = &self.records.value_at(place.history).subscription_records[place.record];
        proof {
            self.lemma_record_in_range(place.history as int, place.record as int);
        }
        let split = refund_split(
            record.plan.price,
            record.plan.max_refund_permille_policy,
            time - record.subscription_time,
            record.plan.duration,
        );
        let to_provider = if split.provider > 0 {
            Some(Payment { to: self.providers.value_at(provider_at).money_address, amount: split.provider })
        } else {
            None
        };
        Ok(RefundPayments { customer: Payment { to: caller, amount: split.customer }, provider: to_provider })
    }

    /// Refunds the caller's subscription to the plan at `plan_index` of
    /// `provider_address` at `time`, and returns what the customer
    /// receives. `transfer` is the outcome of the payments that
    /// [`Self::refund_payments`] names: the failure of the first that
    /// failed, if one did.
    ///
    /// The refund is refused where the caller's newest purchase of the plan
    /// is refunded or matured, where its term has not begun, and where what
    /// is locked for it has left the ledger. Where it is not refused and
    /// the payments were made, everything that is locked for the purchase is
    /// released and the purchase is marked as refunded. In every other case
    /// the contract is left as it is.
    pub fn refund(
        &mut self,
        caller: AccountId,
        time: u64,
        provider_address: AccountId,
        plan_index: u128,
        transfer: Result<(), TransferError>,
    ) -> (outcome: Result<u128, Error>)
        requires
            old(self).wf(),
        ensures
            final(self).wf(),
            outcome == settled(
                old(self)@.refund_refusal(caller, time, provider_address, plan_index),
                transfer,
                old(self)@.refund_to_customer(caller, time, provider_address, plan_index) as u128,
            ),
            outcome.is_ok() ==> final(self)@ == old(self)@.refund_effect(caller, provider_address, plan_index),
            outcome.is_ok() ==> final(self).locked_total(provider_address) == old(self).locked_total(provider_address)
                - locked_of(old(self)@.latest_record(caller, provider_address, plan_index).unwrap().plan),
            outcome.is_err() ==> *final(self) == *old(self),
    {
        let (place, provider_at) = match self.refund_place(&caller, time, &provider_address, plan_index) {
            Err(error) => {
                return Err(error);
            },
            Ok(found) => found,
        };
        match transfer {
            Err(failure) => {
                return Err(Error::from_transfer(failure));
            },
            Ok(_) => {},
        }
        let ghost before = *self;
        let record = &self.records.value_at(place.history).subscription_records[place.record];
        proof {
            self.lemma_record_in_range(place.history as int, place.record as int);
        }
        let split = refund_split(
            record.plan.price,
            record.plan.max_refund_permille_policy,
            time - record.subscription_time,
            record.plan.duration,
        );
        let day = (record.subscription_time + record.plan.duration - self.start_time) / DAY;
        let locked = locked_amount(record.plan.price, record.plan.max_refund_permille_policy);
        self.mark_refunded(place.history, place.record);
        proof {
            before@.lemma_refunded((caller, provider_address), place.record as int);
            self@.lemma_with_ledger(
                provider_address,
                crate::ledger::view_after_release(before@.providers[provider_address].ledger, day, locked),
            );
        }
        self.remove_entry(provider_at, day, locked);
        Ok(split.customer)
    }

    /// Why a withdrawal is refused, if it is: the refusal before any
    /// payment, or the failure of the payment where something was to be
    /// paid.
    pub open spec fn withdraw_refusal(&self, caller: AccountId, time: u64, transfer: Result<(), TransferError>) -> Option<Error> {
        match self@.withdraw_refusal(caller, time) {
            Some(error) => Some(error),
            None => match transfer {
                Err(failure) if self.withdrawable(caller, time) > 0 => Some(Error::of_transfer(failure)),
                _ => None,
            },
        }
    }

    /// What the provider `caller` can withdraw at `time`: the sum of the
    /// buckets of its ledger up to the day of `time`.
    pub open spec fn withdrawable(&self, caller: AccountId, time: u64) -> u128 {
        self.ledger_of(caller).settlement(self@.day_of(time as int) as u64).withdrawing_amount
    }

    /// The payment that belongs to a withdrawal, if there is anything to
    /// pay, or why the withdrawal is refused. The contract is left as it is.
    pub fn withdraw_payment(&self, caller: AccountId, time: u64) -> (outcome: Result<Option<Payment>, Error>)
        requires
            self.wf(),
        ensures
            outcome == (match self@.withdraw_refusal(caller, time) {
                Some(error) => Err(error),
                None => Ok(
                    if self.withdrawable(caller, time) > 0 {
                        Some(Payment { to: caller, amount: self.withdrawable(caller, time) })
                    } else {
                        None
                    },
                ),
            }),
    {
        let provider_at = match self.provider_place(&caller) {
            None => {
                return Err(Error::NotRegistered);
            },
            Some(at) => at,
        };
        if time < self.start_time {
            return Err(Error::TermsOutOfRange);
        }
        let cutoff = (time - self.start_time) / DAY;
        let due = self.providers.value_at(provider_at).payment_manager.process(cutoff);
        if due.withdrawing_amount > 0 {
            Ok(Some(Payment { to: caller, amount: due.withdrawing_amount }))
        } else {
            Ok(None)
        }
    }

    /// Withdraws for the provider `caller` what has matured by `time`, and
    /// returns the amount. `transfer` is the outcome of the payment that
    /// [`Self::withdraw_payment`] names; where it names none, no payment is
    /// made and `transfer` is not looked at.
    ///
    /// The withdrawal is refused where the caller is not a provider and
    /// where `time` is before the contract's start. Where it is not refused
    /// and the payment did not fail, every day up to the day of `time` is
    /// settled in the caller's ledger. In every other case the contract is
    /// left as it is.
    pub fn withdraw(&mut self, caller: AccountId, time: u64, transfer: Result<(), TransferError>) -> (outcome: Result<u128, Error>)
        requires
            old(self).wf(),
        ensures
            final(self).wf(),
            outcome == (match old(self).withdraw_refusal(caller, time, transfer) {
                Some(error) => Err(error),
                None => Ok(old(self).withdrawable(caller, time)),
            }),
            outcome.is_ok() ==> final(self)@ == old(self)@.withdraw_effect(caller, time),
            outcome.is_ok() ==> final(self).locked_total(caller) == old(self).locked_total(caller) - old(self).withdrawable(
                caller,
                time,
            ),
            outcome.is_err() ==> *final(self) == *old(self),
    {
        let provider_at = match self.provider_place(&caller) {
            None => {
                return Err(Error::NotRegistered);
            },
            Some(at) => at,
        };
        if time < self.start_time {
            return Err(Error::TermsOutOfRange);
        }
        let cutoff = (time - self.start_time) / DAY;
        let due = self.providers.value_at(provider_at).payment_manager.process(cutoff);
        if due.withdrawing_amount > 0 {
            match transfer {
                Err(failure) => {
                    return Err(Error::from_transfer(failure));
                },
                Ok(_) => {},
            }
        }
        proof {
            self@.lemma_with_ledger(
                caller,
                crate::ledger::view_after_settlement(self@.providers[caller].ledger, cutoff),
            );
        }
        let outcome = self.settle_ledger(provider_at, cutoff);
        Ok(outcome.withdrawing_amount)
    }
}

} // verus!
