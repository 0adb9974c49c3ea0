use ink_env::AccountId;
use subscrypt::contract::Subscrypt;
use subscrypt::error::{Error, ErrorKind};

const SECRET: [u8; 32] = [
    46, 228, 172, 139, 148, 49, 119, 50, 169, 122, 59, 114, 222, 144, 110, 7, 156, 12, 155, 117, 40, 182, 30, 93, 153, 134,
    68, 99, 96, 66, 17, 7,
];

const HUNTER: [u8; 32] = [
    33, 38, 55, 118, 182, 44, 254, 225, 4, 184, 232, 69, 56, 98, 86, 177, 225, 159, 54, 22, 100, 187, 191, 82, 157, 84,
    167, 154, 13, 23, 106, 177,
];

fn key(byte: u8) -> AccountId {
    AccountId::from([byte; 32])
}

fn words(names: &[&str]) -> Vec<String> {
    names.iter().map(|name| name.to_string()).collect()
}

/// Provider 1 (username "shop", pass phrase "secret") with one plan of 10
/// time units at price 100, and customer 2 (username "buyer", pass phrase
/// "hunter2") with one purchase at time 5.
fn world() -> Subscrypt {
    let mut contract = Subscrypt::new(0);
    contract
        .provider_register(key(1), 100, vec![10], vec![1], vec![100], vec![500], key(9), "shop".to_string(), SECRET, vec![words(&[])])
        .unwrap();
    contract.subscribe(key(2), 5, 100, key(1), 0, HUNTER, "buyer".to_string(), words(&[]), Ok(())).unwrap();
    contract
}

#[test]
fn check_auth_accepts_the_pass_phrase_that_was_set() {
    let contract = world();
    assert!(contract.check_auth(key(2), key(1), "hunter2".to_string()));
    assert!(!contract.check_auth(key(2), key(1), "hunter3".to_string()));
    assert!(!contract.check_auth(key(2), key(1), "secret".to_string()));
    assert!(!contract.check_auth(key(2), key(1), "".to_string()));
    assert!(!contract.check_auth(key(1), key(2), "hunter2".to_string()));
    assert!(!contract.check_auth(key(3), key(1), "hunter2".to_string()));
}

#[test]
fn check_auth_hashed_compares_all_bytes() {
    let contract = world();
    assert!(contract.check_auth_hashed(key(2), key(1), &HUNTER));
    let mut nearly = HUNTER;
    nearly[31] ^= 1;
    assert!(!contract.check_auth_hashed(key(2), key(1), &nearly));
    nearly = HUNTER;
    nearly[0] ^= 1;
    assert!(!contract.check_auth_hashed(key(2), key(1), &nearly));
    assert!(!contract.check_auth_hashed(key(2), key(3), &HUNTER));
}

#[test]
fn check_auth_with_username_finds_the_account() {
    let contract = world();
    assert_eq!(contract.check_auth_with_username("buyer".to_string(), key(1), "hunter2".to_string()), Ok(true));
    assert_eq!(contract.check_auth_with_username("buyer".to_string(), key(1), "wrong".to_string()), Ok(false));
    assert_eq!(contract.check_auth_with_username("shop".to_string(), key(1), "hunter2".to_string()), Ok(false));
    assert_eq!(
        contract.check_auth_with_username("nobody".to_string(), key(1), "hunter2".to_string()),
        Err(Error::UsernameNotFound)
    );
    assert_eq!(Error::UsernameNotFound.kind(), ErrorKind::NotFound);
}

#[test]
fn provider_check_auth_accepts_the_pass_phrase_that_was_set() {
    let contract = world();
    assert!(contract.provider_check_auth(key(1), "secret".to_string()));
    assert!(!contract.provider_check_auth(key(1), "hunter2".to_string()));
    assert!(!contract.provider_check_auth(key(2), "secret".to_string()));
    assert!(contract.provider_check_auth_hashed(key(1), &SECRET));
    assert!(!contract.provider_check_auth_hashed(key(1), &HUNTER));
    assert_eq!(contract.provider_check_auth_with_username("shop".to_string(), "secret".to_string()), Ok(true));
    assert_eq!(contract.provider_check_auth_with_username("buyer".to_string(), "secret".to_string()), Ok(false));
    assert_eq!(
        contract.provider_check_auth_with_username("nobody".to_string(), "secret".to_string()),
        Err(Error::UsernameNotFound)
    );
}

#[test]
fn user_check_auth_accepts_the_pass_phrase_that_was_set() {
    let contract = world();
    assert!(contract.user_check_auth(key(2), "hunter2".to_string()));
    assert!(!contract.user_check_auth(key(2), "secret".to_string()));
    assert!(!contract.user_check_auth(key(1), "secret".to_string()));
    assert!(contract.user_check_auth_hashed(key(2), &HUNTER));
    assert!(!contract.user_check_auth_hashed(key(2), &SECRET));
    assert_eq!(contract.user_check_auth_with_username("buyer".to_string(), "hunter2".to_string()), Ok(true));
    assert_eq!(contract.user_check_auth_with_username("shop".to_string(), "hunter2".to_string()), Ok(false));
    assert_eq!(
        contract.user_check_auth_with_username("nobody".to_string(), "hunter2".to_string()),
        Err(Error::UsernameNotFound)
    );
}

#[test]
fn pass_hashes_can_be_replaced() {
    let mut contract = world();
    contract.set_user_subscrypt_pass(key(2), SECRET).unwrap();
    assert!(contract.user_check_auth(key(2), "secret".to_string()));
    assert!(!contract.user_check_auth(key(2), "hunter2".to_string()));
    assert!(contract.check_auth(key(2), key(1), "hunter2".to_string()));
    contract.subs_crypt_pass_hash_for_each_provider(key(2), key(1), SECRET).unwrap();
    assert!(contract.check_auth(key(2), key(1), "secret".to_string()));
    assert!(!contract.check_auth(key(2), key(1), "hunter2".to_string()));
    contract.set_provider_subscrypt_pass(key(1), HUNTER).unwrap();
    assert!(contract.provider_check_auth(key(1), "hunter2".to_string()));
    assert!(!contract.provider_check_auth(key(1), "secret".to_string()));
}

#[test]
fn pass_hashes_are_not_set_for_unknown_accounts() {
    let mut contract = world();
    assert_eq!(contract.set_user_subscrypt_pass(key(1), SECRET).unwrap_err(), Error::UserNotFound);
    assert_eq!(contract.subs_crypt_pass_hash_for_each_provider(key(2), key(3), SECRET).unwrap_err(), Error::RecordNotFound);
    assert_eq!(contract.subs_crypt_pass_hash_for_each_provider(key(1), key(2), SECRET).unwrap_err(), Error::RecordNotFound);
    assert_eq!(contract.set_provider_subscrypt_pass(key(2), SECRET).unwrap_err(), Error::NotRegistered);
    assert!(contract.user_check_auth(key(2), "hunter2".to_string()));
}

#[test]
fn usernames_are_registered_once_per_account() {
    let mut contract = world();
    assert!(!contract.is_username_available("buyer".to_string()));
    assert!(!contract.is_username_available("shop".to_string()));
    assert!(contract.is_username_available("Buyer".to_string()));
    assert_eq!(contract.get_username_by_address(key(2)).unwrap(), "buyer");
    assert_eq!(contract.get_username_by_address(key(1)).unwrap(), "shop");
    assert_eq!(contract.get_username_by_address(key(3)).unwrap_err(), Error::UsernameNotFound);
    assert_eq!(contract.address_of_username(&"buyer".to_string()), Ok(key(2)));
    assert_eq!(contract.address_of_username(&"nobody".to_string()), Err(Error::UsernameNotFound));
    contract.subscribe(key(2), 20, 100, key(1), 0, HUNTER, "renamed".to_string(), words(&[]), Ok(())).unwrap();
    assert_eq!(contract.get_username_by_address(key(2)).unwrap(), "buyer");
    assert!(contract.is_username_available("renamed".to_string()));
}

#[test]
fn check_subscription_with_username_finds_the_account() {
    let contract = world();
    assert_eq!(contract.check_subscription_with_username("buyer".to_string(), key(1), 0, 14), Ok(true));
    assert_eq!(contract.check_subscription_with_username("buyer".to_string(), key(1), 0, 15), Ok(false));
    assert_eq!(contract.check_subscription_with_username("shop".to_string(), key(1), 0, 14), Ok(false));
    assert_eq!(
        contract.check_subscription_with_username("nobody".to_string(), key(1), 0, 14),
        Err(Error::UsernameNotFound)
    );
}

#[test]
fn history_of_one_provider_is_given_oldest_first() {
    let mut contract = world();
    contract.subscribe(key(2), 15, 100, key(1), 0, HUNTER, "buyer".to_string(), words(&[]), Ok(())).unwrap();
    let records = contract.retrieve_data_with_wallet(key(2), key(1)).unwrap();
    assert_eq!(records.len(), 2);
    assert_eq!(records[0].subscription_time, 5);
    assert_eq!(records[1].subscription_time, 15);
    assert_eq!(contract.retrieve_data_with_wallet(key(2), key(3)).unwrap_err(), Error::RecordNotFound);
    assert_eq!(contract.retrieve_data_with_wallet(key(3), key(1)).unwrap_err(), Error::UserNotFound);
}

#[test]
fn whole_history_follows_the_order_of_first_purchases() {
    let mut contract = world();
    contract
        .provider_register(key(4), 100, vec![10], vec![1], vec![30], vec![0], key(9), "other".to_string(), SECRET, vec![words(&[])])
        .unwrap();
    contract.subscribe(key(2), 6, 30, key(4), 0, HUNTER, "buyer".to_string(), words(&[]), Ok(())).unwrap();
    contract.subscribe(key(2), 15, 100, key(1), 0, HUNTER, "buyer".to_string(), words(&[]), Ok(())).unwrap();
    let records = contract.retrieve_whole_data_with_wallet(key(2)).unwrap();
    let seen: Vec<(AccountId, u64)> = records.iter().map(|record| (record.provider, record.subscription_time)).collect();
    assert_eq!(seen, vec![(key(1), 5), (key(1), 15), (key(4), 6)]);
    assert_eq!(contract.retrieve_whole_data_with_wallet(key(1)).unwrap_err(), Error::UserNotFound);
}

#[test]
fn history_by_username_asks_for_the_pass_phrase() {
    let contract = world();
    let records = contract.retrieve_data_with_username("buyer".to_string(), key(1), "hunter2".to_string()).unwrap();
    assert_eq!(records.len(), 1);
    assert_eq!(records[0].subscription_time, 5);
    assert_eq!(
        contract.retrieve_data_with_username("buyer".to_string(), key(1), "secret".to_string()).unwrap_err(),
        Error::WrongAuth
    );
    assert_eq!(Error::WrongAuth.kind(), ErrorKind::Authorization);
    assert_eq!(
        contract.retrieve_data_with_username("nobody".to_string(), key(1), "hunter2".to_string()).unwrap_err(),
        Error::UsernameNotFound
    );
    assert_eq!(
        contract.retrieve_data_with_username("buyer".to_string(), key(3), "hunter2".to_string()).unwrap_err(),
        Error::RecordNotFound
    );
    assert_eq!(contract.retrieve_data_hashed(&"buyer".to_string(), key(1), &HUNTER).unwrap().len(), 1);
    assert_eq!(contract.retrieve_data_hashed(&"buyer".to_string(), key(1), &SECRET).unwrap_err(), Error::WrongAuth);
}

#[test]
fn whole_history_by_username_asks_for_the_pass_phrase() {
    let contract = world();
    let records = contract.retrieve_whole_data_with_username("buyer".to_string(), "hunter2".to_string()).unwrap();
    assert_eq!(records.len(), 1);
    assert_eq!(
        contract.retrieve_whole_data_with_username("buyer".to_string(), "secret".to_string()).unwrap_err(),
        Error::WrongAuth
    );
    assert_eq!(
        contract.retrieve_whole_data_with_username("shop".to_string(), "secret".to_string()).unwrap_err(),
        Error::UserNotFound
    );
    assert_eq!(
        contract.retrieve_whole_data_with_username("nobody".to_string(), "secret".to_string()).unwrap_err(),
        Error::UsernameNotFound
    );
    assert_eq!(contract.retrieve_whole_data_hashed(&"buyer".to_string(), &HUNTER).unwrap().len(), 1);
    assert_eq!(contract.retrieve_whole_data_hashed(&"buyer".to_string(), &SECRET).unwrap_err(), Error::WrongAuth);
}
