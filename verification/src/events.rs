//! What an operation reports to observers once it has taken effect.

use ink_env::AccountId;
use vstd::prelude::*;

verus! {

/// A provider has registered.
#[derive(Clone, Copy, Debug)]
pub struct ProviderRegisterEvent {
    /// The account that the provider's money is sent to.
    pub address: AccountId,
}

/// A provider has added a plan.
#[derive(Clone, Copy, Debug)]
pub struct AddPlanEvent {
    /// The provider.
    pub owner: AccountId,
    /// The plan's duration.
    pub duration: u64,
    /// The plan's price.
    pub price: u128,
}

/// A customer has subscribed to a plan or renewed a subscription.
#[derive(Clone, Copy, Debug)]
pub struct SubscribeEvent {
    /// The provider.
    pub provider: AccountId,
    /// The index of the plan among the provider's plans.
    pub plan_index: u128,
    /// The time at which the term begins.
    pub subscription_time: u64,
    /// The duration of the term.
    pub duration: u64,
}

} // verus!
