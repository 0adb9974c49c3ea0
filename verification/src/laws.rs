//! What holds of the operations on subscriptions, whatever the state.

use crate::contract::Subscrypt;
use crate::error::{Error, ErrorKind, TransferError};
use crate::model::{is_active, maturity, settled, SubscryptView};
use ink_env::AccountId;
use vstd::prelude::*;

verus! {

impl SubscryptView {
    /// After a subscription the customer's newest purchase of the plan is
    /// the one just made.
    pub proof fn lemma_subscribed_record(
        self,
        caller: AccountId,
        time: u64,
        provider: AccountId,
        plan_index: u128,
        pass: Seq<u8>,
        username: Seq<char>,
        values: Seq<String>,
    )
        requires
            self.wf(),
        ensures
            self.subscribe_effect(caller, time, provider, plan_index, pass, username, values).latest_record(
                caller,
                provider,
                plan_index,
            ) == Some(self.subscribe_record(time, provider, plan_index, values)),
    {
        let record = self.subscribe_record(time, provider, plan_index, values);
        let known = self.with_username(caller, username).with_customer(caller, provider, pass);
        let recorded = known.with_record(caller, record, pass);
        assert(known.records == self.records);
        if self.records.dom().contains((caller, provider)) {
            assert(self.records[(caller, provider)].records.len() <= usize::MAX);
        }
        assert(recorded.latest.dom().contains((caller, provider, plan_index)));
        assert(recorded.records.dom().contains((caller, provider)));
        if self.records.dom().contains((caller, provider)) {
            assert(recorded.records[(caller, provider)].records[self.records[(caller, provider)].records.len() as int]
                == record);
        } else {
            assert(recorded.records[(caller, provider)].records[0] == record);
        }
    }

    /// No two active subscriptions: once a subscription has taken effect, a
    /// second subscription of the same customer to the same plan of the same
    /// provider is refused for as long as the first is neither refunded nor
    /// matured, whatever else it brings, and the refusal is a conflict of
    /// state.
    pub proof fn lemma_no_double_active(
        self,
        caller: AccountId,
        time: u64,
        paid: u128,
        provider: AccountId,
        plan_index: u128,
        pass: Seq<u8>,
        username: Seq<char>,
        values: Seq<String>,
        ledger_room: bool,
        later: u64,
        later_paid: u128,
        later_username: Seq<char>,
        later_values: Seq<String>,
        later_room: bool,
    )
        requires
            self.wf(),
            self.subscribe_refusal(caller, time, paid, provider, plan_index, username, values, ledger_room).is_none(),
            is_active(self.subscribe_record(time, provider, plan_index, values), later),
        ensures
            self.subscribe_effect(caller, time, provider, plan_index, pass, username, values).subscribe_refusal(
                caller,
                later,
                later_paid,
                provider,
                plan_index,
                later_username,
                later_values,
                later_room,
            ) == Some(Error::AlreadySubscribed),
            Error::AlreadySubscribed.spec_kind() == ErrorKind::StateConflict,
    {
        self.lemma_subscribed_record(caller, time, provider, plan_index, pass, username, values);
    }

    /// A subscription is active from the time of purchase until its term
    /// has passed, and not at the end of the term.
    pub proof fn lemma_active_until_maturity(self, time: u64, provider: AccountId, plan_index: u128, values: Seq<String>, later: u64)
        ensures
            is_active(self.subscribe_record(time, provider, plan_index, values), later) <==> later < time
                + self.providers[provider].plans[plan_index as int].duration,
    {
    }
}

impl SubscryptView {
    /// A refund is final: once a refund has taken effect, the purchase is
    /// active at no time, and a second refund is refused as a conflict of
    /// state.
    pub proof fn lemma_refund_is_final(self, caller: AccountId, time: u64, provider: AccountId, plan_index: u128, later: u64)
        requires
            self.wf(),
            self.refund_refusal(caller, time, provider, plan_index).is_none(),
        ensures
            !self.refund_effect(caller, provider, plan_index).subscribed(caller, provider, plan_index, later),
            self.refund_effect(caller, provider, plan_index).refund_refusal(caller, later, provider, plan_index) == Some(
                Error::NotSubscribed,
            ),
            Error::NotSubscribed.spec_kind() == ErrorKind::StateConflict,
    {
        let after = self.refund_effect(caller, provider, plan_index);
        let at = self.latest[(caller, provider, plan_index)] as int;
        assert(after.latest == self.latest);
        assert(after.records[(caller, provider)].records[at].refunded);
    }

    /// A renewal keeps the subscription active without a gap: once it has
    /// taken effect, the customer's newest purchase of the plan begins where
    /// the old term ends and is active until the new term has passed.
    pub proof fn lemma_renewed_record(self, caller: AccountId, provider: AccountId, plan_index: u128, values: Seq<String>, later: u64)
        requires
            self.wf(),
            self.latest_record(caller, provider, plan_index).is_some(),
        ensures
            self.renew_effect(caller, provider, plan_index, values).latest_record(caller, provider, plan_index) == Some(
                self.renew_record(caller, provider, plan_index, values),
            ),
            self.renew_record(caller, provider, plan_index, values).subscription_time == maturity(
                self.latest_record(caller, provider, plan_index).unwrap(),
            ) as u64,
            later < maturity(self.renew_record(caller, provider, plan_index, values)) ==> self.renew_effect(
                caller,
                provider,
                plan_index,
                values,
            ).subscribed(caller, provider, plan_index, later),
    {
        let record = self.renew_record(caller, provider, plan_index, values);
        let recorded = self.with_record(caller, record, self.records[(caller, provider)].pass_hash);
        assert(self.records.dom().contains((caller, provider)));
        assert(self.records[(caller, provider)].records.len() <= usize::MAX);
        assert(recorded.records[(caller, provider)].records[self.records[(caller, provider)].records.len() as int] == record);
    }

    /// A change to a plan leaves every purchase as it was: the terms that a
    /// purchase was made on stay with it.
    pub proof fn lemma_plan_change_keeps_records(self, caller: AccountId, plan_index: u128, plan: crate::records::PlanConsts)
        ensures
            self.with_plan(caller, plan_index, plan).records == self.records,
            self.with_plan(caller, plan_index, plan).latest == self.latest,
            forall|user: AccountId, provider: AccountId, index: u128, time: u64|
                self.with_plan(caller, plan_index, plan).subscribed(user, provider, index, time) == self.subscribed(
                    user,
                    provider,
                    index,
                    time,
                ),
    {
    }
}

/// A payment that failed leaves every purchase, renewal and refund without
/// effect: the operation is refused.
pub proof fn lemma_failed_payment_refuses<T>(refusal: Option<Error>, failure: TransferError, done: T)
    ensures
        settled(refusal, Err(failure), done).is_err(),
        refusal.is_none() ==> settled(refusal, Err(failure), done) == Err::<T, Error>(Error::of_transfer(failure)),
        Error::of_transfer(failure).spec_kind() == ErrorKind::Funds,
{
}

impl Subscrypt {
    /// Withdrawing twice: once a withdrawal at `time` has taken effect,
    /// there is nothing to withdraw at any time of the same day or before,
    /// as long as nothing new is locked.
    pub proof fn lemma_withdraw_twice(&self, after: Self, caller: AccountId, time: u64, later: u64)
        requires
            self.wf(),
            after.wf(),
            self@.withdraw_refusal(caller, time).is_none(),
            after@ == self@.withdraw_effect(caller, time),
            self@.start_time <= later,
            self@.day_of(later as int) <= self@.day_of(time as int),
        ensures
            after@.withdraw_refusal(caller, later).is_none(),
            after.withdrawable(caller, later) == 0,
            after.withdraw_refusal(caller, later, Ok(())).is_none(),
            forall|failure: TransferError| after.withdraw_refusal(caller, later, Err(failure)).is_none(),
    {
        self.lemma_ledger_wf(caller);
        assert(after@.providers.dom().contains(caller));
        after.lemma_ledger_wf(caller);
        self.ledger_of(caller).lemma_settled_twice(
            after.ledger_of(caller),
            self@.day_of(time as int) as u64,
            self@.day_of(later as int) as u64,
        );
    }
}

} // verus!
