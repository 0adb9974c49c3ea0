use ink_env::AccountId;
use subscrypt::contract::Subscrypt;
use subscrypt::error::{Error, ErrorKind, TransferError};
use subscrypt::ledger::ProcessReturningData;
use subscrypt::records::DAY;

const START: u64 = 1_000_000;
const MONTH: u64 = 30 * DAY;

fn account(byte: u8) -> AccountId {
    AccountId::from([byte; 32])
}

fn provider() -> AccountId {
    account(1)
}

fn wallet() -> AccountId {
    account(2)
}

fn customer() -> AccountId {
    account(3)
}

fn names(list: &[&str]) -> Vec<String> {
    list.iter().map(|name| name.to_string()).collect()
}

/// A contract with one provider, who offers plan 0 (30 days, price 100, half
/// of it refundable, one characteristic) and plan 1 (60 days, price 1000, a
/// fifth refundable, no characteristic).
fn contract() -> Subscrypt {
    let mut contract = Subscrypt::new(START);
    let registration = contract.provider_register(
        provider(),
        100,
        vec![MONTH, 2 * MONTH],
        vec![1, 5],
        vec![100, 1000],
        vec![500, 200],
        wallet(),
        "provider".to_string(),
        [9; 32],
        vec![names(&["region"]), names(&[])],
    );
    assert!(registration.is_ok());
    contract
}

fn subscribe_at(contract: &mut Subscrypt, who: AccountId, time: u64, plan: u128) -> Result<subscrypt::events::SubscribeEvent, Error> {
    let (price, values) = if plan == 0 { (100, names(&["eu"])) } else { (1000, names(&[])) };
    contract.subscribe(who, time, price, provider(), plan, [7; 32], "customer".to_string(), values, Ok(()))
}

#[test]
fn subscribe_names_the_immediate_payout() {
    let contract = contract();
    let payment = contract
        .subscribe_payment(customer(), START, 100, provider(), 0, &"customer".to_string(), &names(&["eu"]))
        .unwrap();
    assert_eq!(payment.to, wallet());
    assert_eq!(payment.amount, 50);
    let other = contract
        .subscribe_payment(customer(), START, 1000, provider(), 1, &"customer".to_string(), &names(&[]))
        .unwrap();
    assert_eq!(other.amount, 800);
}

#[test]
fn subscribe_locks_the_refundable_part_on_the_day_of_maturity() {
    let mut contract = contract();
    let event = subscribe_at(&mut contract, customer(), START + 5, 0).unwrap();
    assert_eq!(event.provider, provider());
    assert_eq!(event.plan_index, 0);
    assert_eq!(event.subscription_time, START + 5);
    assert_eq!(event.duration, MONTH);
    let before = contract.process(provider(), 29).unwrap();
    assert_eq!(before, ProcessReturningData { withdrawing_amount: 0, current_linked_list_head: 30, reduced_length: 0 });
    let at = contract.process(provider(), 30).unwrap();
    assert_eq!(at, ProcessReturningData { withdrawing_amount: 50, current_linked_list_head: 30, reduced_length: 1 });
}

#[test]
fn subscribe_records_the_purchase() {
    let mut contract = contract();
    subscribe_at(&mut contract, customer(), START + 5, 0).unwrap();
    let records = contract.retrieve_data_with_wallet(customer(), provider()).unwrap();
    assert_eq!(records.len(), 1);
    assert_eq!(records[0].provider, provider());
    assert_eq!(records[0].plan_index, 0);
    assert_eq!(records[0].subscription_time, START + 5);
    assert_eq!(records[0].plan.price, 100);
    assert_eq!(records[0].plan.duration, MONTH);
    assert_eq!(records[0].charastristics_values_encrypted, names(&["eu"]));
    assert!(!records[0].refunded);
    assert!(contract.check_subscription(customer(), provider(), 0, START + 5));
    assert!(!contract.check_subscription(customer(), provider(), 1, START + 5));
    assert!(!contract.check_subscription(provider(), customer(), 0, START + 5));
}

#[test]
fn subscription_is_active_until_its_term_has_passed() {
    let mut contract = contract();
    subscribe_at(&mut contract, customer(), START, 0).unwrap();
    assert!(contract.check_subscription(customer(), provider(), 0, START));
    assert!(contract.check_subscription(customer(), provider(), 0, START + MONTH - 1));
    assert!(!contract.check_subscription(customer(), provider(), 0, START + MONTH));
    assert!(!contract.check_subscription(customer(), provider(), 0, START + MONTH + 1));
}

#[test]
fn second_subscription_to_an_active_plan_is_a_conflict() {
    let mut contract = contract();
    subscribe_at(&mut contract, customer(), START, 0).unwrap();
    let again = subscribe_at(&mut contract, customer(), START + 10, 0);
    assert_eq!(again.unwrap_err(), Error::AlreadySubscribed);
    assert_eq!(Error::AlreadySubscribed.kind(), ErrorKind::StateConflict);
    let last_moment = subscribe_at(&mut contract, customer(), START + MONTH - 1, 0);
    assert_eq!(last_moment.unwrap_err(), Error::AlreadySubscribed);
    assert_eq!(contract.retrieve_data_with_wallet(customer(), provider()).unwrap().len(), 1);
    assert_eq!(contract.process(provider(), 1000).unwrap().withdrawing_amount, 50);
}

#[test]
fn subscription_to_another_plan_or_by_another_customer_is_no_conflict() {
    let mut contract = contract();
    subscribe_at(&mut contract, customer(), START, 0).unwrap();
    subscribe_at(&mut contract, customer(), START, 1).unwrap();
    let other = contract.subscribe(account(4), START, 100, provider(), 0, [8; 32], "other".to_string(), names(&["us"]), Ok(()));
    assert!(other.is_ok());
    assert_eq!(contract.process(provider(), 1000).unwrap().withdrawing_amount, 50 + 200 + 50);
}

#[test]
fn subscription_after_maturity_is_a_new_purchase() {
    let mut contract = contract();
    subscribe_at(&mut contract, customer(), START, 0).unwrap();
    subscribe_at(&mut contract, customer(), START + MONTH, 0).unwrap();
    let records = contract.retrieve_data_with_wallet(customer(), provider()).unwrap();
    assert_eq!(records.len(), 2);
    assert_eq!(records[1].subscription_time, START + MONTH);
    assert!(contract.check_subscription(customer(), provider(), 0, START + MONTH));
}

#[test]
fn subscribe_is_refused_for_an_unknown_provider() {
    let mut contract = contract();
    let outcome = contract.subscribe(customer(), START, 100, account(50), 0, [7; 32], "customer".to_string(), names(&["eu"]), Ok(()));
    assert_eq!(outcome.unwrap_err(), Error::ProviderNotFound);
    assert_eq!(Error::ProviderNotFound.kind(), ErrorKind::NotFound);
}

#[test]
fn subscribe_is_refused_for_an_unknown_plan() {
    let mut contract = contract();
    let outcome = contract.subscribe(customer(), START, 100, provider(), 2, [7; 32], "customer".to_string(), names(&["eu"]), Ok(()));
    assert_eq!(outcome.unwrap_err(), Error::PlanNotFound);
    let huge = contract.subscribe(customer(), START, 100, provider(), u128::MAX, [7; 32], "customer".to_string(), names(&["eu"]), Ok(()));
    assert_eq!(huge.unwrap_err(), Error::PlanNotFound);
}

#[test]
fn subscribe_is_refused_for_the_wrong_number_of_values() {
    let mut contract = contract();
    let outcome = contract.subscribe(customer(), START, 100, provider(), 0, [7; 32], "customer".to_string(), names(&[]), Ok(()));
    assert_eq!(outcome.unwrap_err(), Error::InvalidCharacteristics);
    assert_eq!(Error::InvalidCharacteristics.kind(), ErrorKind::Validation);
}

#[test]
fn subscribe_is_refused_for_the_wrong_payment() {
    let mut contract = contract();
    for paid in [0u128, 99, 101] {
        let outcome = contract.subscribe(customer(), START, paid, provider(), 0, [7; 32], "customer".to_string(), names(&["eu"]), Ok(()));
        assert_eq!(outcome.unwrap_err(), Error::WrongPayment);
    }
}

#[test]
fn subscribe_is_refused_for_a_disabled_plan() {
    let mut contract = contract();
    contract.change_disable(provider(), 0).unwrap();
    assert_eq!(subscribe_at(&mut contract, customer(), START, 0).unwrap_err(), Error::PlanDisabled);
    contract.change_disable(provider(), 0).unwrap();
    assert!(subscribe_at(&mut contract, customer(), START, 0).is_ok());
}

#[test]
fn subscribe_is_refused_for_a_username_of_another_account() {
    let mut contract = contract();
    subscribe_at(&mut contract, customer(), START, 0).unwrap();
    let outcome = contract.subscribe(customer(), START, 1000, provider(), 1, [7; 32], "provider".to_string(), names(&[]), Ok(()));
    assert_eq!(outcome.unwrap_err(), Error::InvalidUsername);
}

#[test]
fn subscribe_is_refused_for_terms_out_of_range() {
    let mut contract = contract();
    contract.edit_plan(provider(), 0, MONTH, 1, 100, 1001, false).unwrap();
    assert_eq!(subscribe_at(&mut contract, customer(), START, 0).unwrap_err(), Error::TermsOutOfRange);
    contract.edit_plan(provider(), 0, MONTH, 1, 100, 500, false).unwrap();
    assert_eq!(subscribe_at(&mut contract, customer(), START - 1, 0).unwrap_err(), Error::TermsOutOfRange);
    assert_eq!(subscribe_at(&mut contract, customer(), u64::MAX - MONTH + 1, 0).unwrap_err(), Error::TermsOutOfRange);
    assert!(subscribe_at(&mut contract, customer(), u64::MAX - MONTH, 0).is_ok());
}

#[test]
fn subscribe_is_refused_for_a_price_beyond_scaling() {
    let mut contract = contract();
    let price = u128::MAX / 1000 + 1;
    contract.edit_plan(provider(), 1, MONTH, 1, price, 200, false).unwrap();
    let outcome = contract.subscribe(customer(), START, price, provider(), 1, [7; 32], "customer".to_string(), names(&[]), Ok(()));
    assert_eq!(outcome.unwrap_err(), Error::TermsOutOfRange);
}

#[test]
fn subscribe_is_refused_where_the_ledger_cannot_take_the_amount() {
    let mut contract = contract();
    let price = u128::MAX / 1000;
    contract.edit_plan(provider(), 1, MONTH, 1, price, 1000, false).unwrap();
    let mut accepted = 0;
    let mut refused = 0;
    for index in 0..1005u16 {
        let mut bytes = [200u8; 32];
        bytes[0] = (index % 256) as u8;
        bytes[1] = (index / 256) as u8;
        let outcome = contract.subscribe(AccountId::from(bytes), START, price, provider(), 1, [7; 32], format!("c{}", index), names(&[]), Ok(()));
        match outcome {
            Ok(_) => {
                assert_eq!(refused, 0);
                accepted += 1;
            }
            Err(error) => {
                assert_eq!(error, Error::LimitExceeded);
                refused += 1;
            }
        }
    }
    assert_eq!(accepted, 1000);
    assert_eq!(refused, 5);
    assert_eq!(contract.process(provider(), 1000).unwrap().withdrawing_amount, price * 1000);
}

#[test]
fn subscribe_without_payment_changes_nothing() {
    let mut contract = contract();
    for failure in [TransferError::TransferFailed, TransferError::BelowSubsistenceThreshold] {
        let outcome = contract.subscribe(customer(), START, 100, provider(), 0, [7; 32], "customer".to_string(), names(&["eu"]), Err(failure));
        let expected = if failure == TransferError::TransferFailed { Error::TransferFailed } else { Error::BelowSubsistenceThreshold };
        assert_eq!(outcome.unwrap_err(), expected);
        assert_eq!(expected.kind(), ErrorKind::Funds);
    }
    assert!(!contract.check_subscription(customer(), provider(), 0, START));
    assert_eq!(contract.process(provider(), 1000).unwrap().withdrawing_amount, 0);
    assert_eq!(contract.retrieve_data_with_wallet(customer(), provider()).unwrap_err(), Error::UserNotFound);
    assert!(contract.is_username_available("customer".to_string()));
}

#[test]
fn refund_in_the_first_half_returns_the_locked_amount() {
    let mut contract = contract();
    subscribe_at(&mut contract, customer(), START, 0).unwrap();
    let payments = contract.refund_payments(customer(), START + 15 * DAY, provider(), 0).unwrap();
    assert_eq!(payments.customer.to, customer());
    assert_eq!(payments.customer.amount, 50);
    assert!(payments.provider.is_none());
    let paid = contract.refund(customer(), START + 15 * DAY, provider(), 0, Ok(())).unwrap();
    assert_eq!(paid, 50);
}

#[test]
fn refund_on_the_twentieth_day_pays_both() {
    let mut contract = contract();
    subscribe_at(&mut contract, customer(), START, 0).unwrap();
    let payments = contract.refund_payments(customer(), START + 20 * DAY, provider(), 0).unwrap();
    assert_eq!(payments.customer.amount, 33);
    let provider_part = payments.provider.unwrap();
    assert_eq!(provider_part.to, wallet());
    assert_eq!(provider_part.amount, 16);
    assert_eq!(contract.refund(customer(), START + 20 * DAY, provider(), 0, Ok(())).unwrap(), 33);
}

#[test]
fn refund_releases_the_lock_and_marks_the_record() {
    let mut contract = contract();
    subscribe_at(&mut contract, customer(), START, 0).unwrap();
    contract.subscribe(account(4), START, 100, provider(), 0, [8; 32], "other".to_string(), names(&["us"]), Ok(())).unwrap();
    contract.refund(customer(), START + DAY, provider(), 0, Ok(())).unwrap();
    assert_eq!(contract.process(provider(), 30).unwrap().withdrawing_amount, 50);
    let records = contract.retrieve_data_with_wallet(customer(), provider()).unwrap();
    assert!(records[0].refunded);
    assert!(!contract.retrieve_data_with_wallet(account(4), provider()).unwrap()[0].refunded);
    assert!(!contract.check_subscription(customer(), provider(), 0, START + DAY));
}

#[test]
fn refund_is_refused_twice() {
    let mut contract = contract();
    subscribe_at(&mut contract, customer(), START, 0).unwrap();
    contract.refund(customer(), START + DAY, provider(), 0, Ok(())).unwrap();
    assert_eq!(contract.refund(customer(), START + DAY, provider(), 0, Ok(())).unwrap_err(), Error::NotSubscribed);
    assert_eq!(Error::NotSubscribed.kind(), ErrorKind::StateConflict);
}

#[test]
fn refund_is_refused_at_and_after_maturity() {
    let mut contract = contract();
    subscribe_at(&mut contract, customer(), START, 0).unwrap();
    assert_eq!(contract.refund(customer(), START + MONTH, provider(), 0, Ok(())).unwrap_err(), Error::NotSubscribed);
    assert_eq!(contract.refund(customer(), START + MONTH + 1, provider(), 0, Ok(())).unwrap_err(), Error::NotSubscribed);
    assert_eq!(contract.refund_payments(customer(), START + MONTH, provider(), 0).unwrap_err(), Error::NotSubscribed);
    assert!(contract.refund(customer(), START + MONTH - 1, provider(), 0, Ok(())).is_ok());
}

#[test]
fn refund_is_refused_without_a_subscription() {
    let mut contract = contract();
    assert_eq!(contract.refund(customer(), START, provider(), 0, Ok(())).unwrap_err(), Error::NotSubscribed);
    subscribe_at(&mut contract, customer(), START, 0).unwrap();
    assert_eq!(contract.refund(customer(), START, provider(), 1, Ok(())).unwrap_err(), Error::NotSubscribed);
    assert_eq!(contract.refund(account(4), START, provider(), 0, Ok(())).unwrap_err(), Error::NotSubscribed);
}

#[test]
fn refund_without_payment_changes_nothing() {
    let mut contract = contract();
    subscribe_at(&mut contract, customer(), START, 0).unwrap();
    let outcome = contract.refund(customer(), START + DAY, provider(), 0, Err(TransferError::TransferFailed));
    assert_eq!(outcome.unwrap_err(), Error::TransferFailed);
    assert!(contract.check_subscription(customer(), provider(), 0, START + DAY));
    assert!(!contract.retrieve_data_with_wallet(customer(), provider()).unwrap()[0].refunded);
    assert_eq!(contract.process(provider(), 30).unwrap().withdrawing_amount, 50);
}

#[test]
fn refund_is_refused_once_the_lock_has_been_withdrawn() {
    let mut contract = contract();
    subscribe_at(&mut contract, customer(), START + DAY / 2, 0).unwrap();
    let withdrawn = contract.withdraw(provider(), START + 30 * DAY, Ok(())).unwrap();
    assert_eq!(withdrawn, 50);
    let outcome = contract.refund(customer(), START + 30 * DAY + 1, provider(), 0, Ok(()));
    assert_eq!(outcome.unwrap_err(), Error::LockedFundsSettled);
    assert_eq!(Error::LockedFundsSettled.kind(), ErrorKind::StateConflict);
}

#[test]
fn renew_continues_where_the_old_term_ends() {
    let mut contract = contract();
    subscribe_at(&mut contract, customer(), START, 1).unwrap();
    contract.add_charastristic_for_plan(provider(), 1, names(&["seats"])).unwrap();
    let payment = contract.renew_payment(customer(), START + DAY, 1000, provider(), 1, &names(&["4"])).unwrap();
    assert_eq!(payment.to, wallet());
    assert_eq!(payment.amount, 800);
    let event = contract.renew(customer(), START + DAY, 1000, provider(), 1, names(&["4"]), Ok(())).unwrap();
    assert_eq!(event.subscription_time, START + 2 * MONTH);
    assert_eq!(event.duration, 2 * MONTH);
    let records = contract.retrieve_data_with_wallet(customer(), provider()).unwrap();
    assert_eq!(records.len(), 2);
    assert_eq!(records[1].subscription_time, START + 2 * MONTH);
    assert_eq!(records[1].charastristics_values_encrypted, names(&["4"]));
    assert!(!records[0].refunded);
    assert!(contract.check_subscription(customer(), provider(), 1, START + 3 * MONTH));
    assert!(!contract.check_subscription(customer(), provider(), 1, START + 4 * MONTH));
}

#[test]
fn renew_moves_the_lock_to_the_new_day_of_maturity() {
    let mut contract = contract();
    subscribe_at(&mut contract, customer(), START, 0).unwrap();
    contract.edit_plan(provider(), 0, 10 * DAY, 1, 200, 250, false).unwrap();
    contract.renew(customer(), START + DAY, 200, provider(), 0, names(&[]), Ok(())).unwrap();
    assert_eq!(
        contract.process(provider(), 39).unwrap(),
        ProcessReturningData { withdrawing_amount: 0, current_linked_list_head: 40, reduced_length: 1 }
    );
    assert_eq!(contract.process(provider(), 40).unwrap().withdrawing_amount, 50);
    let records = contract.retrieve_data_with_wallet(customer(), provider()).unwrap();
    assert_eq!(records[1].plan.price, 200);
    assert_eq!(records[1].charastristics_values_encrypted, names(&["eu"]));
    assert_eq!(records[0].plan.price, 100);
}

#[test]
fn renew_without_payment_changes_nothing() {
    let mut contract = contract();
    subscribe_at(&mut contract, customer(), START, 0).unwrap();
    let outcome = contract.renew(customer(), START + DAY, 100, provider(), 0, names(&[]), Err(TransferError::BelowSubsistenceThreshold));
    assert_eq!(outcome.unwrap_err(), Error::BelowSubsistenceThreshold);
    assert_eq!(contract.retrieve_data_with_wallet(customer(), provider()).unwrap().len(), 1);
    assert_eq!(
        contract.process(provider(), 30).unwrap(),
        ProcessReturningData { withdrawing_amount: 50, current_linked_list_head: 30, reduced_length: 1 }
    );
    assert_eq!(contract.process(provider(), 60).unwrap().reduced_length, 1);
}

#[test]
fn renew_is_allowed_at_maturity_and_refused_after() {
    let mut contract = contract();
    subscribe_at(&mut contract, customer(), START, 0).unwrap();
    let late = contract.renew(customer(), START + MONTH + 1, 100, provider(), 0, names(&[]), Ok(()));
    assert_eq!(late.unwrap_err(), Error::NotSubscribed);
    assert!(contract.renew(customer(), START + MONTH, 100, provider(), 0, names(&[]), Ok(())).is_ok());
}

#[test]
fn renew_is_refused_without_a_subscription_or_after_a_refund() {
    let mut contract = contract();
    assert_eq!(contract.renew(customer(), START, 100, provider(), 0, names(&[]), Ok(())).unwrap_err(), Error::NotSubscribed);
    subscribe_at(&mut contract, customer(), START, 0).unwrap();
    contract.refund(customer(), START + DAY, provider(), 0, Ok(())).unwrap();
    assert_eq!(contract.renew(customer(), START + DAY, 100, provider(), 0, names(&[]), Ok(())).unwrap_err(), Error::NotSubscribed);
}

#[test]
fn renew_is_refused_for_wrong_payment_disabled_plan_and_wrong_values() {
    let mut contract = contract();
    subscribe_at(&mut contract, customer(), START, 0).unwrap();
    assert_eq!(contract.renew(customer(), START + DAY, 99, provider(), 0, names(&[]), Ok(())).unwrap_err(), Error::WrongPayment);
    assert_eq!(
        contract.renew(customer(), START + DAY, 100, provider(), 0, names(&["more"]), Ok(())).unwrap_err(),
        Error::InvalidCharacteristics
    );
    contract.change_disable(provider(), 0).unwrap();
    assert_eq!(contract.renew(customer(), START + DAY, 100, provider(), 0, names(&[]), Ok(())).unwrap_err(), Error::PlanDisabled);
}

#[test]
fn renew_is_refused_once_the_old_lock_has_been_withdrawn() {
    let mut contract = contract();
    subscribe_at(&mut contract, customer(), START + DAY / 2, 0).unwrap();
    contract.withdraw(provider(), START + 30 * DAY, Ok(())).unwrap();
    let outcome = contract.renew(customer(), START + 30 * DAY + 1, 100, provider(), 0, names(&[]), Ok(()));
    assert_eq!(outcome.unwrap_err(), Error::LockedFundsSettled);
}

#[test]
fn refund_of_a_renewal_is_refused_before_its_term() {
    let mut contract = contract();
    subscribe_at(&mut contract, customer(), START, 0).unwrap();
    contract.renew(customer(), START + DAY, 100, provider(), 0, names(&[]), Ok(())).unwrap();
    assert_eq!(contract.refund(customer(), START + 2 * DAY, provider(), 0, Ok(())).unwrap_err(), Error::TermNotStarted);
    assert_eq!(contract.refund(customer(), START + MONTH + 15 * DAY, provider(), 0, Ok(())).unwrap(), 50);
}

#[test]
fn withdraw_pays_what_has_matured() {
    let mut contract = contract();
    subscribe_at(&mut contract, customer(), START, 0).unwrap();
    subscribe_at(&mut contract, customer(), START, 1).unwrap();
    assert_eq!(contract.process(provider(), 29).unwrap().withdrawing_amount, 0);
    assert_eq!(contract.withdraw(provider(), START + 29 * DAY, Ok(())).unwrap(), 0);
    assert_eq!(contract.withdraw(provider(), START + 30 * DAY, Ok(())).unwrap(), 50);
    assert_eq!(contract.withdraw(provider(), START + 59 * DAY, Ok(())).unwrap(), 0);
    assert_eq!(contract.withdraw(provider(), START + 61 * DAY, Ok(())).unwrap(), 200);
}

#[test]
fn withdraw_twice_pays_nothing_the_second_time() {
    let mut contract = contract();
    subscribe_at(&mut contract, customer(), START, 0).unwrap();
    let first = contract.withdraw(provider(), START + 31 * DAY, Ok(())).unwrap();
    assert!(first > 0);
    assert_eq!(first, 50);
    assert_eq!(contract.withdraw(provider(), START + 31 * DAY, Ok(())).unwrap(), 0);
    assert_eq!(contract.withdraw(provider(), START + 31 * DAY, Err(TransferError::TransferFailed)).unwrap(), 0);
}

#[test]
fn withdraw_without_payment_leaves_the_ledger() {
    let mut contract = contract();
    subscribe_at(&mut contract, customer(), START, 0).unwrap();
    let outcome = contract.withdraw(provider(), START + 31 * DAY, Err(TransferError::TransferFailed));
    assert_eq!(outcome.unwrap_err(), Error::TransferFailed);
    assert_eq!(
        contract.process(provider(), 31).unwrap(),
        ProcessReturningData { withdrawing_amount: 50, current_linked_list_head: 30, reduced_length: 1 }
    );
    assert_eq!(contract.withdraw(provider(), START + 31 * DAY, Ok(())).unwrap(), 50);
}

#[test]
fn withdraw_is_refused_for_a_caller_that_is_no_provider() {
    let mut contract = contract();
    assert_eq!(contract.withdraw(customer(), START, Ok(())).unwrap_err(), Error::NotRegistered);
    assert_eq!(Error::NotRegistered.kind(), ErrorKind::Authorization);
    assert_eq!(contract.process(customer(), 5).unwrap_err(), Error::ProviderNotFound);
}

#[test]
fn withdraw_is_refused_before_the_start() {
    let mut contract = contract();
    assert_eq!(contract.withdraw(provider(), START - 1, Ok(())).unwrap_err(), Error::TermsOutOfRange);
}

#[test]
fn withdraw_leaves_later_days_untouched() {
    let mut contract = contract();
    subscribe_at(&mut contract, customer(), START, 0).unwrap();
    contract.subscribe(account(4), START + 3 * DAY, 100, provider(), 0, [8; 32], "other".to_string(), names(&["us"]), Ok(())).unwrap();
    assert_eq!(contract.withdraw(provider(), START + 30 * DAY, Ok(())).unwrap(), 50);
    assert_eq!(
        contract.process(provider(), 33).unwrap(),
        ProcessReturningData { withdrawing_amount: 50, current_linked_list_head: 33, reduced_length: 1 }
    );
}

#[test]
fn ledgers_of_two_providers_are_apart() {
    let mut contract = contract();
    contract
        .provider_register(account(5), 100, vec![MONTH], vec![1], vec![40], vec![1000], account(6), "second".to_string(), [1; 32], vec![names(&[])])
        .unwrap();
    subscribe_at(&mut contract, customer(), START, 0).unwrap();
    contract.subscribe(customer(), START, 40, account(5), 0, [7; 32], "customer".to_string(), names(&[]), Ok(())).unwrap();
    assert_eq!(contract.withdraw(provider(), START + MONTH, Ok(())).unwrap(), 50);
    assert_eq!(contract.withdraw(account(5), START + MONTH, Ok(())).unwrap(), 40);
}

#[test]
fn new_contract_is_empty() {
    let contract = Subscrypt::new(START);
    assert_eq!(contract.start_time(), START);
    assert_eq!(contract.provider_register_fee(), 100);
    assert!(!contract.check_subscription(customer(), provider(), 0, START));
    assert!(contract.is_username_available("provider".to_string()));
    let other = Subscrypt::default();
    assert_eq!(other.start_time(), 0);
    assert_eq!(other.provider_register_fee(), 100);
}

#[test]
fn subscription_after_a_refund_is_a_new_purchase() {
    let mut contract = contract();
    subscribe_at(&mut contract, customer(), START, 0).unwrap();
    contract.refund(customer(), START + DAY, provider(), 0, Ok(())).unwrap();
    subscribe_at(&mut contract, customer(), START + 2 * DAY, 0).unwrap();
    let records = contract.retrieve_data_with_wallet(customer(), provider()).unwrap();
    assert_eq!(records.len(), 2);
    assert!(records[0].refunded);
    assert!(!records[1].refunded);
    assert!(contract.check_subscription(customer(), provider(), 0, START + 3 * DAY));
    assert_eq!(contract.process(provider(), 30).unwrap().withdrawing_amount, 0);
    assert_eq!(contract.process(provider(), 32).unwrap().withdrawing_amount, 50);
}

#[test]
fn purchases_on_one_day_share_a_bucket() {
    let mut contract = contract();
    subscribe_at(&mut contract, customer(), START + 10, 0).unwrap();
    contract.subscribe(account(4), START + 20, 100, provider(), 0, [8; 32], "other".to_string(), names(&["us"]), Ok(())).unwrap();
    assert_eq!(
        contract.process(provider(), 30).unwrap(),
        ProcessReturningData { withdrawing_amount: 100, current_linked_list_head: 30, reduced_length: 1 }
    );
}

#[test]
fn default_contract_starts_at_time_zero() {
    let contract: Subscrypt = Default::default();
    assert_eq!(contract.start_time(), 0);
    assert_eq!(contract.provider_register_fee(), 100);
}

#[test]
fn withdraw_names_its_payment() {
    let mut contract = contract();
    assert_eq!(contract.withdraw_payment(customer(), START).unwrap_err(), Error::NotRegistered);
    assert_eq!(contract.withdraw_payment(provider(), START - 1).unwrap_err(), Error::TermsOutOfRange);
    assert!(contract.withdraw_payment(provider(), START).unwrap().is_none());
    subscribe_at(&mut contract, customer(), START, 0).unwrap();
    assert!(contract.withdraw_payment(provider(), START + 30 * DAY - 1).unwrap().is_none());
    let payment = contract.withdraw_payment(provider(), START + 30 * DAY).unwrap().unwrap();
    assert_eq!(payment.to, provider());
    assert_eq!(payment.amount, 50);
    contract.withdraw(provider(), START + 30 * DAY, Ok(())).unwrap();
    assert!(contract.withdraw_payment(provider(), START + 30 * DAY).unwrap().is_none());
}
