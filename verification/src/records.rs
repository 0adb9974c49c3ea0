//! What the contract keeps of plans, providers, customers and purchases, and
//! the mathematical view of each.

use crate::ledger::LinkedList;
use ink_env::AccountId;
use vstd::prelude::*;

verus! {

/// The length of a day, in the unit of the host's clock.
pub const DAY: u64 = 86400;

/// The terms of a plan, as its provider has set them.
#[derive(Clone, Copy, Debug, PartialEq, Eq, Structural)]
pub struct PlanConsts {
    /// How long a subscription lasts.
    pub duration: u64,
    /// How many sessions a customer may have at a time.
    pub active_session_limit: u128,
    /// What a subscription costs.
    pub price: u128,
    /// The part of the price, in thousandths, that is refundable at purchase.
    pub max_refund_permille_policy: u128,
    /// Whether the provider has closed the plan to new subscriptions.
    pub disabled: bool,
}

/// One purchase: the plan as it was at the time, and what became of it.
#[derive(Debug)]
pub struct SubscriptionRecord {
    /// The provider.
    pub provider: AccountId,
    /// The plan's terms at the time of purchase.
    pub plan: PlanConsts,
    /// The index of the plan among the provider's plans.
    pub plan_index: u128,
    /// The time at which the term begins.
    pub subscription_time: u64,
    /// The customer's values for the plan's characteristics, encrypted for
    /// the provider.
    pub charastristics_values_encrypted: Vec<String>,
    /// Whether the purchase has been refunded.
    pub refunded: bool,
}

/// A purchase as a mathematical value.
pub struct RecordView {
    pub provider: AccountId,
    pub plan: PlanConsts,
    pub plan_index: u128,
    pub subscription_time: u64,
    pub values: Seq<String>,
    pub refunded: bool,
}

impl View for SubscriptionRecord {
    type V = RecordView;

    open spec fn view(&self) -> RecordView {
        RecordView {
            provider: self.provider,
            plan: self.plan,
            plan_index: self.plan_index,
            subscription_time: self.subscription_time,
            values: self.charastristics_values_encrypted@,
            refunded: self.refunded,
        }
    }
}

/// A customer's purchases from one provider, oldest first, and the hash that
/// authenticates the customer towards that provider.
#[derive(Debug)]
pub struct PlanRecord {
    /// The purchases, oldest first.
    pub subscription_records: Vec<SubscriptionRecord>,
    /// The hash of the customer's pass phrase for this provider.
    pub pass_hash: [u8; 32],
}

/// A customer's purchases from one provider as a mathematical value.
pub struct HistoryView {
    pub records: Seq<RecordView>,
    pub pass_hash: Seq<u8>,
}

/// The views of a list of records.
pub open spec fn record_views(records: Seq<SubscriptionRecord>) -> Seq<RecordView> {
    Seq::new(records.len(), |i: int| records[i]@)
}

impl View for PlanRecord {
    type V = HistoryView;

    open spec fn view(&self) -> HistoryView {
        HistoryView { records: record_views(self.subscription_records@), pass_hash: self.pass_hash@ }
    }
}

/// A provider: its plans, where its money goes, and the ledger of what is
/// locked for it.
pub struct Provider {
    /// The plans, in the order in which they were added.
    pub plans: Vec<PlanConsts>,
    /// For each plan, the names of the characteristics that a subscription
    /// gives values for.
    pub plans_charastristics: Vec<Vec<String>>,
    /// The account that the provider's money is sent to.
    pub money_address: AccountId,
    /// The locked funds, by day of maturity.
    pub payment_manager: LinkedList,
    /// The hash of the provider's pass phrase.
    pub subs_crypt_pass_hash: [u8; 32],
}

/// A provider as a mathematical value.
pub struct ProviderView {
    pub plans: Seq<PlanConsts>,
    pub characteristics: Seq<Seq<String>>,
    pub money_address: AccountId,
    pub ledger: Map<u64, u128>,
    pub pass_hash: Seq<u8>,
}

/// The views of a list of lists of names.
pub open spec fn name_lists(lists: Seq<Vec<String>>) -> Seq<Seq<String>> {
    Seq::new(lists.len(), |i: int| lists[i]@)
}

impl View for Provider {
    type V = ProviderView;

    open spec fn view(&self) -> ProviderView {
        ProviderView {
            plans: self.plans@,
            characteristics: name_lists(self.plans_charastristics@),
            money_address: self.money_address,
            ledger: self.payment_manager@,
            pass_hash: self.subs_crypt_pass_hash@,
        }
    }
}

/// A customer: the providers it has bought from, in the order of the first
/// purchase from each, and the hash of its pass phrase.
#[derive(Debug)]
pub struct User {
    /// The providers that the customer has bought from.
    pub list_of_providers: Vec<AccountId>,
    /// The hash of the customer's pass phrase.
    pub subs_crypt_pass_hash: [u8; 32],
}

/// A customer as a mathematical value.
pub struct UserView {
    pub providers: Seq<AccountId>,
    pub pass_hash: Seq<u8>,
}

impl View for User {
    type V = UserView;

    open spec fn view(&self) -> UserView {
        UserView { providers: self.list_of_providers@, pass_hash: self.subs_crypt_pass_hash@ }
    }
}

/// A copy of a list of strings.
pub fn clone_strings(list: &Vec<String>) -> (copy: Vec<String>)
    ensures
        copy@ == list@,
{
    let mut copy: Vec<String> = Vec::new();
    let mut at: usize = 0;
    while at < list.len()
        invariant
            at <= list.len(),
            copy@ == list@.take(at as int),
        decreases list.len() - at,
    {
        copy.push(list[at].clone());
        at = at + 1;
        proof {
            assert(copy@ =~= list@.take(at as int));
        }
    }
    proof {
        assert(list@.take(list.len() as int) =~= list@);
    }
    copy
}

/// Whether two hashes are the same.
pub fn same_hash(a: &[u8; 32], b: &[u8; 32]) -> (same: bool)
    ensures
        same == (a@ == b@),
{
    let mut at: usize = 0;
    while at < 32
        invariant
            at <= 32,
            forall|i: int| 0 <= i < at ==> a@[i] == b@[i],
        decreases 32 - at,
    {
        if a[at] != b[at] {
            return false;
        }
        at = at + 1;
    }
    proof {
        assert(a@ =~= b@);
    }
    true
}

impl SubscriptionRecord {
    /// A copy of the record.
    pub fn duplicate(&self) -> (copy: SubscriptionRecord)
        ensures
            copy@ == self@,
    {
        SubscriptionRecord {
            provider: self.provider,
            plan: self.plan,
            plan_index: self.plan_index,
            subscription_time: self.subscription_time,
            charastristics_values_encrypted: clone_strings(&self.charastristics_values_encrypted),
            refunded: self.refunded,
        }
    }
}

} // verus!
