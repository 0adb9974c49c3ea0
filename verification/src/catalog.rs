//! The providers' side: registration, and the plans that a provider offers.

use crate::account::same_account;
use crate::contract::Subscrypt;
use crate::error::Error;
use crate::events::{AddPlanEvent, ProviderRegisterEvent};
use crate::ledger::LinkedList;
use crate::model::SubscryptView;
use crate::name_store::{addresses_get, addresses_len, names_get, names_len};
use crate::records::{clone_strings, name_lists, PlanConsts, Provider, ProviderView};
use ink_env::AccountId;
use vstd::prelude::*;

verus! {

/// What a registration reports.
#[derive(Debug)]
pub struct Registration {
    /// The provider has registered.
    pub provider: ProviderRegisterEvent,
    /// The provider has added these plans, in order.
    pub plans: Vec<AddPlanEvent>,
}

/// The plans that the four lists of terms describe, none of them disabled.
pub open spec fn plans_of(durations: Seq<u64>, limits: Seq<u128>, prices: Seq<u128>, policies: Seq<u128>) -> Seq<PlanConsts> {
    Seq::new(
        durations.len(),
        |i: int|
            PlanConsts {
                duration: durations[i],
                active_session_limit: limits[i],
                price: prices[i],
                max_refund_permille_policy: policies[i],
                disabled: false,
            },
    )
}

/// The events that report the plans of `owner`.
pub open spec fn plan_events(owner: AccountId, durations: Seq<u64>, prices: Seq<u128>) -> Seq<AddPlanEvent> {
    Seq::new(durations.len(), |i: int| AddPlanEvent { owner, duration: durations[i], price: prices[i] })
}

/// Whether the five lists that describe plans are of one length.
pub open spec fn same_lengths(durations: nat, limits: nat, prices: nat, policies: nat, characteristics: nat) -> bool {
    durations == limits && prices == limits && policies == limits && policies == characteristics
}

impl SubscryptView {
    /// Why a registration as provider is refused, if it is. The checks are
    /// made in this order.
    pub open spec fn register_refusal(self, caller: AccountId, paid: u128, lengths_agree: bool, username: Seq<char>) -> Option<Error> {
        if !lengths_agree {
            Some(Error::WrongNumberOfArgs)
        } else if !self.addresses.dom().contains(caller) && self.names.dom().contains(username) && self.names[username]
            != caller {
            Some(Error::InvalidUsername)
        } else if paid < self.provider_register_fee {
            Some(Error::FeeNotPaid)
        } else if self.providers.dom().contains(caller) {
            Some(Error::AlreadyRegistered)
        } else if !self.username_room(caller, username) {
            Some(Error::LimitExceeded)
        } else {
            None
        }
    }

    /// The state after a registration that is not refused: the username is
    /// registered for a caller that has none, and the caller is a provider
    /// with the given plans and an empty ledger.
    pub open spec fn register_effect(
        self,
        caller: AccountId,
        plans: Seq<PlanConsts>,
        characteristics: Seq<Seq<String>>,
        address: AccountId,
        username: Seq<char>,
        pass: Seq<u8>,
    ) -> SubscryptView {
        let named = self.with_username(caller, username);
        SubscryptView {
            providers: named.providers.insert(
                caller,
                ProviderView { plans, characteristics, money_address: address, ledger: Map::empty(), pass_hash: pass },
            ),
            ..named
        }
    }

    /// Why the addition of plans is refused, if it is.
    pub open spec fn add_plan_refusal(self, caller: AccountId, lengths_agree: bool) -> Option<Error> {
        if !lengths_agree {
            Some(Error::WrongNumberOfArgs)
        } else if !self.providers.dom().contains(caller) {
            Some(Error::NotRegistered)
        } else {
            None
        }
    }

    /// The state with the plans of `caller` replaced.
    pub open spec fn with_plans(self, caller: AccountId, plans: Seq<PlanConsts>, characteristics: Seq<Seq<String>>) -> SubscryptView {
        SubscryptView {
            providers: self.providers.insert(caller, ProviderView { plans, characteristics, ..self.providers[caller] }),
            ..self
        }
    }

    /// The state after an addition of plans that is not refused: the new
    /// plans stand behind the caller's plans.
    pub open spec fn add_plan_effect(self, caller: AccountId, plans: Seq<PlanConsts>, characteristics: Seq<Seq<String>>) -> SubscryptView {
        self.with_plans(
            caller,
            self.providers[caller].plans + plans,
            self.providers[caller].characteristics + characteristics,
        )
    }

    /// Why a change to the plan at `plan_index` of `caller` is refused, if
    /// it is.
    pub open spec fn plan_refusal(self, caller: AccountId, plan_index: u128) -> Option<Error> {
        if !self.providers.dom().contains(caller) {
            Some(Error::NotRegistered)
        } else if plan_index >= self.providers[caller].plans.len() {
            Some(Error::PlanNotFound)
        } else {
            None
        }
    }

    /// The state with the plan at `plan_index` of `caller` replaced.
    pub open spec fn with_plan(self, caller: AccountId, plan_index: u128, plan: PlanConsts) -> SubscryptView {
        self.with_plans(
            caller,
            self.providers[caller].plans.update(plan_index as int, plan),
            self.providers[caller].characteristics,
        )
    }

    /// The state with more characteristics behind those of the plan at
    /// `plan_index` of `caller`.
    pub open spec fn with_characteristics(self, caller: AccountId, plan_index: u128, more: Seq<String>) -> SubscryptView {
        self.with_plans(
            caller,
            self.providers[caller].plans,
            self.providers[caller].characteristics.update(
                plan_index as int,
                self.providers[caller].characteristics[plan_index as int] + more,
            ),
        )
    }

    /// The plan at `plan_index` of `provider`, or why there is none.
    pub open spec fn plan_at(self, provider: AccountId, plan_index: u128) -> Result<PlanConsts, Error> {
        if !self.providers.dom().contains(provider) {
            Err(Error::ProviderNotFound)
        } else if plan_index >= self.providers[provider].plans.len() {
            Err(Error::PlanNotFound)
        } else {
            Ok(self.providers[provider].plans[plan_index as int])
        }
    }

    /// Replacing the plans of a provider by as many plans as lists of
    /// characteristics keeps the invariant.
    pub proof fn lemma_with_plans(self, caller: AccountId, plans: Seq<PlanConsts>, characteristics: Seq<Seq<String>>)
        requires
            self.wf(),
            plans.len() == characteristics.len(),
        ensures
            self.with_plans(caller, plans, characteristics).wf(),
    {
        let after = self.with_plans(caller, plans, characteristics);
        assert forall|account: AccountId| #[trigger] after.providers.dom().contains(account) implies after.providers[account].plans.len()
            == after.providers[account].characteristics.len() by {
            if account != caller {
                assert(self.providers.dom().contains(account));
            }
        }
    }
}

/// The plans that the four lists of terms describe.
fn build_plans(durations: &Vec<u64>, limits: &Vec<u128>, prices: &Vec<u128>, policies: &Vec<u128>) -> (plans: Vec<PlanConsts>)
    requires
        durations.len() == limits.len(),
        prices.len() == limits.len(),
        policies.len() == limits.len(),
    ensures
        plans@ == plans_of(durations@, limits@, prices@, policies@),
{
    let mut plans: Vec<PlanConsts> = Vec::new();
    let mut at: usize = 0;
    while at < durations.len()
        invariant
            at <= durations.len(),
            durations.len() == limits.len(),
            prices.len() == limits.len(),
            policies.len() == limits.len(),
            plans@ == plans_of(durations@, limits@, prices@, policies@).take(at as int),
        decreases durations.len() - at,
    {
        plans.push(
            PlanConsts {
                duration: durations[at],
                active_session_limit: limits[at],
                price: prices[at],
                max_refund_permille_policy: policies[at],
                disabled: false,
            },
        );
        at = at + 1;
        proof {
            assert(plans@ =~= plans_of(durations@, limits@, prices@, policies@).take(at as int));
        }
    }
    proof {
        let all = plans_of(durations@, limits@, prices@, policies@);
        assert(all.take(all.len() as int) =~= all);
    }
    plans
}

/// The events that report the plans of `owner`.
fn build_plan_events(owner: AccountId, durations: &Vec<u64>, prices: &Vec<u128>) -> (events: Vec<AddPlanEvent>)
    requires
        durations.len() == prices.len(),
    ensures
        events@ == plan_events(owner, durations@, prices@),
{
    let mut events: Vec<AddPlanEvent> = Vec::new();
    let mut at: usize = 0;
    while at < durations.len()
        invariant
            at <= durations.len(),
            durations.len() == prices.len(),
            events@ == plan_events(owner, durations@, prices@).take(at as int),
        decreases durations.len() - at,
    {
        events.push(AddPlanEvent { owner, duration: durations[at], price: prices[at] });
        at = at + 1;
        proof {
            assert(events@ =~= plan_events(owner, durations@, prices@).take(at as int));
        }
    }
    proof {
        let all = plan_events(owner, durations@, prices@);
        assert(all.take(all.len() as int) =~= all);
    }
    events
}

/// The lists of `more` put behind those of `lists`.
fn extend_name_lists(lists: &mut Vec<Vec<String>>, more: Vec<Vec<String>>)
    ensures
        name_lists(final(lists)@) == name_lists(old(lists)@) + name_lists(more@),
{
    let ghost before = lists@;
    let mut more = more;
    let ghost all = more@;
    let mut at: usize = 0;
    while at < more.len()
        invariant
            at <= more.len(),
            more@.len() == all.len(),
            name_lists(more@) == name_lists(all),
            name_lists(lists@) == name_lists(before) + name_lists(all).take(at as int),
        decreases more.len() - at,
    {
        let copy = clone_strings(&more[at]);
        let ghost held = lists@;
        lists.push(copy);
        at = at + 1;
        proof {
            assert(name_lists(lists@) =~= name_lists(held).push(copy@));
            assert(name_lists(lists@) =~= name_lists(before) + name_lists(all).take(at as int));
        }
    }
    proof {
        assert(name_lists(all).take(all.len() as int) =~= name_lists(all));
    }
}

impl Subscrypt {
    /// Registers the caller as a provider with the given plans and returns
    /// what is to be reported. `paid` is what is attached to the call.
    ///
    /// The registration is refused where the five lists differ in length,
    /// where the caller has no username and `username` belongs to another
    /// account, where `paid` is less than the fee, and where the caller is a
    /// provider already. A refused registration changes nothing.
    pub fn provider_register(
        &mut self,
        caller: AccountId,
        paid: u128,
        durations: Vec<u64>,
        active_session_limits: Vec<u128>,
        prices: Vec<u128>,
        max_refund_permille_policies: Vec<u128>,
        address: AccountId,
        username: String,
        subs_crypt_pass_hash: [u8; 32],
        plans_charastristics: Vec<Vec<String>>,
    ) -> (outcome: Result<Registration, Error>)
        requires
            old(self).wf(),
        ensures
            final(self).wf(),
            match outcome {
                Ok(registration) => {
                    &&& old(self)@.register_refusal(
                        caller,
                        paid,
                        same_lengths(
                            durations@.len(),
                            active_session_limits@.len(),
                            prices@.len(),
                            max_refund_permille_policies@.len(),
                            plans_charastristics@.len(),
                        ),
                        username@,
                    ).is_none()
                    &&& registration.provider.address == address
                    &&& registration.plans@ == plan_events(caller, durations@, prices@)
                    &&& final(self)@ == old(self)@.register_effect(
                        caller,
                        plans_of(durations@, active_session_limits@, prices@, max_refund_permille_policies@),
                        name_lists(plans_charastristics@),
                        address,
                        username@,
                        subs_crypt_pass_hash@,
                    )
                },
                Err(error) => {
                    &&& old(self)@.register_refusal(
                        caller,
                        paid,
                        same_lengths(
                            durations@.len(),
                            active_session_limits@.len(),
                            prices@.len(),
                            max_refund_permille_policies@.len(),
                            plans_charastristics@.len(),
                        ),
                        username@,
                    ) == Some(error)
                    &&& *final(self) == *old(self)
                },
            },
    {
        if durations.len() != active_session_limits.len() || prices.len() != active_session_limits.len()
            || max_refund_permille_policies.len() != active_session_limits.len() || max_refund_permille_policies.len()
            != plans_charastristics.len() {
            return Err(Error::WrongNumberOfArgs);
        }
        let has_username = addresses_get(&self.address_to_username, &caller).is_some();
        let owner = names_get(&self.username_to_address, &username);
        if !has_username {
            match owner {
                Some(account) => {
                    if !same_account(&account, &caller) {
                        return Err(Error::InvalidUsername);
                    }
                },
                None => {},
            }
        }
        if paid < self.provider_register_fee {
            return Err(Error::FeeNotPaid);
        }
        if self.providers.contains_key(&caller) {
            return Err(Error::AlreadyRegistered);
        }
        if !has_username && !((owner.is_some() || names_len(&self.username_to_address) < u32::MAX) && addresses_len(
            &self.address_to_username,
        ) < u32::MAX) {
            return Err(Error::LimitExceeded);
        }
        let ghost before = *self;
        let plans = build_plans(&durations, &active_session_limits, &prices, &max_refund_permille_policies);
        let events = build_plan_events(caller, &durations, &prices);
        let mut characteristics: Vec<Vec<String>> = Vec::new();
        proof {
            assert(name_lists(characteristics@) =~= Seq::<Seq<String>>::empty());
        }
        extend_name_lists(&mut characteristics, plans_charastristics);
        proof {
            assert(name_lists(characteristics@) =~= name_lists(plans_charastristics@));
        }
        let provider = Provider {
            plans,
            plans_charastristics: characteristics,
            money_address: address,
            payment_manager: LinkedList::new(),
            subs_crypt_pass_hash,
        };
        self.remember_username(caller, username);
        let ghost named = *self;
        self.providers.push(caller, provider);
        proof {
            let shown = provider@;
            assert(self@.providers =~= named@.providers.insert(caller, shown));
            assert forall|i: int| 0 <= i < self.providers.values().len() implies (#[trigger] self.providers.values()[i]).payment_manager.wf() by {
                if i < named.providers.values().len() {
                    assert(self.providers.values()[i] == named.providers.values()[i]);
                }
            }
            before@.lemma_with_username(caller, username@);
            let listed = SubscryptView { providers: named@.providers.insert(caller, ProviderView { ledger: Map::empty(), ..shown }), ..named@ };
            assert(self@ == listed);
            assert forall|account: AccountId| #[trigger] listed.providers.dom().contains(account) implies listed.providers[account].plans.len()
                == listed.providers[account].characteristics.len() by {
                if account != caller {
                    assert(named@.providers.dom().contains(account));
                }
            }
        }
        Ok(Registration { provider: ProviderRegisterEvent { address }, plans: events })
    }

    /// Puts the given plans behind the caller's plans and returns what is
    /// to be reported. Refused, with nothing changed, where the five lists
    /// differ in length and where the caller is no provider.
    pub fn add_plan(
        &mut self,
        caller: AccountId,
        durations: Vec<u64>,
        active_session_limits: Vec<u128>,
        prices: Vec<u128>,
        max_refund_permille_policies: Vec<u128>,
        plan_charastristics: Vec<Vec<String>>,
    ) -> (outcome: Result<Vec<AddPlanEvent>, Error>)
        requires
            old(self).wf(),
        ensures
            final(self).wf(),
            match outcome {
                Ok(events) => {
                    &&& old(self)@.add_plan_refusal(
                        caller,
                        same_lengths(
                            durations@.len(),
                            active_session_limits@.len(),
                            prices@.len(),
                            max_refund_permille_policies@.len(),
                            plan_charastristics@.len(),
                        ),
                    ).is_none()
                    &&& events@ == plan_events(caller, durations@, prices@)
                    &&& final(self)@ == old(self)@.add_plan_effect(
                        caller,
                        plans_of(durations@, active_session_limits@, prices@, max_refund_permille_policies@),
                        name_lists(plan_charastristics@),
                    )
                },
                Err(error) => {
                    &&& old(self)@.add_plan_refusal(
                        caller,
                        same_lengths(
                            durations@.len(),
                            active_session_limits@.len(),
                            prices@.len(),
                            max_refund_permille_policies@.len(),
                            plan_charastristics@.len(),
                        ),
                    ) == Some(error)
                    &&& *final(self) == *old(self)
                },
            },
    {
        if durations.len() != active_session_limits.len() || prices.len() != active_session_limits.len()
            || max_refund_permille_policies.len() != active_session_limits.len() || max_refund_permille_policies.len()
            != plan_charastristics.len() {
            return Err(Error::WrongNumberOfArgs);
        }
        let at = match self.provider_place(&caller) {
            None => {
                return Err(Error::NotRegistered);
            },
            Some(at) => at,
        };
        let ghost before = *self;
        let mut plans = build_plans(&durations, &active_session_limits, &prices, &max_refund_permille_policies);
        let events = build_plan_events(caller, &durations, &prices);
        let provider = self.providers.value_at_mut(at);
        let ghost held = *provider;
        provider.plans.append(&mut plans);
        extend_name_lists(&mut provider.plans_charastristics, plan_charastristics);
        proof {
            let fresh = plans_of(durations@, active_session_limits@, prices@, max_refund_permille_policies@);
            assert(provider@ == (ProviderView {
                plans: held@.plans + fresh,
                characteristics: held@.characteristics + name_lists(plan_charastristics@),
                ..held@
            }));
        }
        proof {
            let fresh = plans_of(durations@, active_session_limits@, prices@, max_refund_permille_policies@);
            before.providers.lemma_entry(at as int);
            assert(self@.providers =~= before@.add_plan_effect(caller, fresh, name_lists(plan_charastristics@)).providers);
            before@.lemma_with_plans(
                caller,
                before@.providers[caller].plans + fresh,
                before@.providers[caller].characteristics + name_lists(plan_charastristics@),
            );
        }
        Ok(events)
    }

    /// The positions of the caller among the providers and of the plan
    /// among its plans, or why there is no such plan.
    fn plan_place(&self, caller: &AccountId, plan_index: u128) -> (outcome: Result<(usize, usize), Error>)
        requires
            self.wf(),
        ensures
            match outcome {
                Ok((at, index)) => {
                    &&& self@.plan_refusal(*caller, plan_index).is_none()
                    &&& at < self.providers.keys().len()
                    &&& self.providers.keys()[at as int] == *caller
                    &&& self.providers.values()[at as int] == self.providers@[*caller]
                    &&& index == plan_index
                    &&& index < self.providers.values()[at as int].plans.len()
                },
                Err(error) => self@.plan_refusal(*caller, plan_index) == Some(error),
            },
    {
        let at = match self.provider_place(caller) {
            None => {
                return Err(Error::NotRegistered);
            },
            Some(at) => at,
        };
        if plan_index >= self.providers.value_at(at).plans.len() as u128 {
            return Err(Error::PlanNotFound);
        }
        Ok((at, plan_index as usize))
    }

    /// Puts `plan` in the place of the plan at position `index` of the
    /// provider at position `at`.
    fn set_plan(&mut self, at: usize, index: usize, plan: PlanConsts)
        requires
            old(self).wf(),
            at < old(self).providers.keys().len(),
            index < old(self).providers.values()[at as int].plans.len(),
        ensures
            final(self).wf(),
            final(self)@ == old(self)@.with_plan(old(self).providers.keys()[at as int], index as u128, plan),
    {
        let ghost before = *self;
        let ghost caller = before.providers.keys()[at as int];
        let provider = self.providers.value_at_mut(at);
        let ghost held = *provider;
        provider.plans.set(index, plan);
        proof {
            assert(provider@ == (ProviderView { plans: held@.plans.update(index as int, plan), ..held@ }));
        }
        proof {
            before.providers.lemma_entry(at as int);
            assert(self@.providers =~= before@.with_plan(caller, index as u128, plan).providers);
            before@.lemma_with_plans(
                caller,
                before@.providers[caller].plans.update(index as int, plan),
                before@.providers[caller].characteristics,
            );
        }
    }

    /// Replaces the terms of the caller's plan at `plan_index`. Purchases
    /// made before keep the terms they were made on. Refused, with nothing
    /// changed, where the caller is no provider and where it has no plan at
    /// the index.
    pub fn edit_plan(
        &mut self,
        caller: AccountId,
        plan_index: u128,
        duration: u64,
        active_session_limit: u128,
        price: u128,
        max_refund_permille_policies: u128,
        disabled: bool,
    ) -> (outcome: Result<(), Error>)
        requires
            old(self).wf(),
        ensures
            final(self).wf(),
            match outcome {
                Ok(_) => old(self)@.plan_refusal(caller, plan_index).is_none() && final(self)@ == old(self)@.with_plan(
                    caller,
                    plan_index,
                    PlanConsts {
                        duration,
                        active_session_limit,
                        price,
                        max_refund_permille_policy: max_refund_permille_policies,
                        disabled,
                    },
                ),
                Err(error) => old(self)@.plan_refusal(caller, plan_index) == Some(error) && *final(self) == *old(self),
            },
    {
        let (at, index) = match self.plan_place(&caller, plan_index) {
            Err(error) => {
                return Err(error);
            },
            Ok(place) => place,
        };
        let plan = PlanConsts {
            duration,
            active_session_limit,
            price,
            max_refund_permille_policy: max_refund_permille_policies,
            disabled,
        };
        self.set_plan(at, index, plan);
        Ok(())
    }

    /// Disables the caller's plan at `plan_index` where it is enabled, and
    /// enables it where it is disabled. Refused, with nothing changed, where
    /// the caller is no provider and where it has no plan at the index.
    pub fn change_disable(&mut self, caller: AccountId, plan_index: u128) -> (outcome: Result<(), Error>)
        requires
            old(self).wf(),
        ensures
            final(self).wf(),
            match outcome {
                Ok(_) => old(self)@.plan_refusal(caller, plan_index).is_none() && final(self)@ == old(self)@.with_plan(
                    caller,
                    plan_index,
                    PlanConsts {
                        disabled: !old(self)@.providers[caller].plans[plan_index as int].disabled,
                        ..old(self)@.providers[caller].plans[plan_index as int]
                    },
                ),
                Err(error) => old(self)@.plan_refusal(caller, plan_index) == Some(error) && *final(self) == *old(self),
            },
    {
        let (at, index) = match self.plan_place(&caller, plan_index) {
            Err(error) => {
                return Err(error);
            },
            Ok(place) => place,
        };
        let current = self.providers.value_at(at).plans[index];
        self.set_plan(at, index, PlanConsts { disabled: !current.disabled, ..current });
        Ok(())
    }

    /// Puts more characteristics behind those of the caller's plan at
    /// `plan_index`. Refused, with nothing changed, where the caller is no
    /// provider and where it has no plan at the index.
    pub fn add_charastristic_for_plan(&mut self, caller: AccountId, plan_index: u128, charastristics: Vec<String>) -> (outcome: Result<
        (),
        Error,
    >)
        requires
            old(self).wf(),
        ensures
            final(self).wf(),
            match outcome {
                Ok(_) => old(self)@.plan_refusal(caller, plan_index).is_none() && final(self)@ == old(self)@.with_characteristics(
                    caller,
                    plan_index,
                    charastristics@,
                ),
                Err(error) => old(self)@.plan_refusal(caller, plan_index) == Some(error) && *final(self) == *old(self),
            },
    {
        let (at, index) = match self.plan_place(&caller, plan_index) {
            Err(error) => {
                return Err(error);
            },
            Ok(place) => place,
        };
        let ghost before = *self;
        proof {
            before.providers.lemma_entry(at as int);
            assert(before@.providers[caller].plans.len() == before@.providers[caller].characteristics.len());
        }
        let provider = self.providers.value_at_mut(at);
        let ghost held = *provider;
        let mut more = charastristics;
        let names = &mut provider.plans_charastristics[index];
        names.append(&mut more);
        proof {
            assert(provider@.characteristics =~= held@.characteristics.update(
                index as int,
                held@.characteristics[index as int] + charastristics@,
            ));
        }
        proof {
            assert(self@.providers =~= before@.with_characteristics(caller, plan_index, charastristics@).providers);
            before@.lemma_with_plans(
                caller,
                before@.providers[caller].plans,
                before@.providers[caller].characteristics.update(
                    plan_index as int,
                    before@.providers[caller].characteristics[plan_index as int] + charastristics@,
                ),
            );
        }
        Ok(())
    }

    /// The terms of the plan at `plan_index` of `provider_address`.
    pub fn get_plan_data(&self, provider_address: AccountId, plan_index: u128) -> (outcome: Result<PlanConsts, Error>)
        requires
            self.wf(),
        ensures
            outcome == self@.plan_at(provider_address, plan_index),
    {
        let at = match self.provider_place(&provider_address) {
            None => {
                return Err(Error::ProviderNotFound);
            },
            Some(at) => at,
        };
        let provider = self.providers.value_at(at);
        if plan_index >= provider.plans.len() as u128 {
            return Err(Error::PlanNotFound);
        }
        Ok(provider.plans[plan_index as usize])
    }

    /// The characteristics of the plan at `plan_index` of
    /// `provider_address`.
    pub fn get_plan_charastristics(&self, provider_address: AccountId, plan_index: u128) -> (outcome: Result<Vec<String>, Error>)
        requires
            self.wf(),
        ensures
            match outcome {
                Ok(names) => self@.plan_at(provider_address, plan_index).is_ok() && names@
                    == self@.providers[provider_address].characteristics[plan_index as int],
                Err(error) => self@.plan_at(provider_address, plan_index) == Err::<PlanConsts, Error>(error),
            },
    {
        let at = match self.provider_place(&provider_address) {
            None => {
                return Err(Error::ProviderNotFound);
            },
            Some(at) => at,
        };
        let provider = self.providers.value_at(at);
        if plan_index >= provider.plans.len() as u128 {
            return Err(Error::PlanNotFound);
        }
        proof {
            assert(self@.providers[provider_address].plans.len() == self@.providers[provider_address].characteristics.len());
        }
        Ok(clone_strings(&provider.plans_charastristics[plan_index as usize]))
    }
}

} // verus!
