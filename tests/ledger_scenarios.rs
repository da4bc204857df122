use me_ledger::hashing::derive_account_key;
use me_ledger::ledger::{Ledger, CONNECTION_SEED, ME_MINT_SEED, USER_SEED};
use me_ledger::state::{ErrorCode, DECIMAL_FACTOR};
use sha2::{Digest, Sha256};

const T0: i64 = 1_700_000_000;
const DAY: i64 = 86_400;

fn digest(bytes: &[u8]) -> [u8; 32] {
    Sha256::digest(bytes).into()
}

fn new_ledger() -> Ledger {
    Ledger::initialize_global([1u8; 32], [2u8; 32], [3u8; 32])
}

fn key(tag: &[u8], id: &str) -> [u8; 32] {
    let mut seed = tag.to_vec();
    seed.extend_from_slice(&digest(id.as_bytes()));
    digest(&seed)
}

fn ledger_with_connection() -> Ledger {
    let mut l = new_ledger();
    l.initialize_user("alice", T0).unwrap();
    l.initialize_user("bob", T0).unwrap();
    l.create_connection("meet-1", "alice", "bob", digest(b"1234"), digest(b"5678"), T0)
        .unwrap();
    l
}

#[test]
fn register_then_daily_quota_scenario() {
    let mut l = new_ledger();
    let order = l.initialize_user("alice", T0).unwrap();
    assert_eq!(order.amount, 48 * DECIMAL_FACTOR);
    assert_eq!(order.to, key(&USER_SEED, "alice"));
    assert_eq!(order.mint, key(&ME_MINT_SEED, "alice"));
    let a = l.user("alice").unwrap();
    assert_eq!(a.daily_minted_today, 48);
    assert_eq!(a.total_me_minted, 48);
    assert_eq!(a.last_mint_time, T0);
    assert_eq!(l.global().total_users, 1);

    let same_day = l.mint_daily_me("alice", T0 + 3600);
    assert_eq!(same_day.unwrap_err(), ErrorCode::DailyLimitReached);
    assert_eq!(l.user("alice").unwrap().total_me_minted, 48);

    let next_day = l.mint_daily_me("alice", T0 + DAY).unwrap();
    assert_eq!(next_day.amount, 24 * DECIMAL_FACTOR);
    assert_eq!(next_day.mint, key(&ME_MINT_SEED, "alice"));
    let a = l.user("alice").unwrap();
    assert_eq!(a.total_me_minted, 72);
    assert_eq!(a.daily_minted_today, 24);
    assert_eq!(a.last_mint_time, T0 + DAY);
}

#[test]
fn quota_resets_once_after_many_idle_days() {
    let mut l = new_ledger();
    l.initialize_user("carol", T0).unwrap();
    l.mint_daily_me("carol", T0 + DAY + 1).unwrap();
    let t = T0 + DAY + 1;
    let five_days_later = l.mint_daily_me("carol", t + 5 * DAY).unwrap();
    assert_eq!(five_days_later.amount, 24 * DECIMAL_FACTOR);
    let a = l.user("carol").unwrap();
    assert_eq!(a.daily_minted_today, 24);
    assert_eq!(a.total_me_minted, 48 + 24 + 24);
    assert_eq!(a.last_mint_time, t + 5 * DAY);
}

#[test]
fn quota_stays_within_limit_after_mints() {
    let mut l = new_ledger();
    l.initialize_user("dave", T0).unwrap();
    for d in 1..6 {
        let _ = l.mint_daily_me("dave", T0 + d * DAY);
        let _ = l.mint_daily_me("dave", T0 + d * DAY + 10);
        assert!(l.user("dave").unwrap().daily_minted_today <= 24);
    }
    assert_eq!(l.user("dave").unwrap().total_me_minted, 48 + 5 * 24);
}

#[test]
fn counters_never_decrease_over_a_session() {
    let mut l = ledger_with_connection();
    let mut last = (0u64, 0u64, 0u64, 0u64);
    let steps: Vec<Box<dyn Fn(&mut Ledger)>> = vec![
        Box::new(|l: &mut Ledger| {
            let _ = l.mint_daily_me("alice", T0 + DAY);
        }),
        Box::new(|l: &mut Ledger| {
            let _ = l.lock_me_for_memo("alice", 10, 100 * DECIMAL_FACTOR);
        }),
        Box::new(|l: &mut Ledger| {
            let _ = l.unlock_connection("meet-1", "alice", b"5678", [9u8; 32]);
        }),
        Box::new(|l: &mut Ledger| {
            let _ = l.unlock_connection("meet-1", "alice", b"5678", [9u8; 32]);
        }),
        Box::new(|l: &mut Ledger| {
            let _ = l.lock_me_for_memo("alice", 0, 100);
        }),
    ];
    for step in steps.iter() {
        step(&mut l);
        let a = l.user("alice").unwrap();
        let now = (a.total_me_minted, a.total_me_locked, a.total_memo_earned, a.connections_count);
        assert!(now.0 >= last.0 && now.1 >= last.1 && now.2 >= last.2 && now.3 >= last.3);
        last = now;
    }
    assert_eq!(last, (72, 10, 18, 1));
}

#[test]
fn duplicate_registration_is_refused() {
    let mut l = new_ledger();
    l.initialize_user("alice", T0).unwrap();
    let again = l.initialize_user("alice", T0 + 5);
    assert_eq!(again.unwrap_err(), ErrorCode::DuplicateRegistration);
    assert_eq!(l.global().total_users, 1);
    assert_eq!(l.user("alice").unwrap().last_mint_time, T0);
}

#[test]
fn overlong_identifier_is_refused() {
    let mut l = new_ledger();
    let long = "x".repeat(65);
    assert_eq!(l.initialize_user(&long, T0).unwrap_err(), ErrorCode::UserIdTooLong);
    let edge = "y".repeat(64);
    assert!(l.initialize_user(&edge, T0).is_ok());
    assert!(l.user(&long).is_none());
}

#[test]
fn daily_mint_of_unknown_account_fails() {
    let mut l = new_ledger();
    assert_eq!(l.mint_daily_me("nobody", T0).unwrap_err(), ErrorCode::AccountNotFound);
}

#[test]
fn lock_converts_one_to_one() {
    let mut l = new_ledger();
    l.initialize_user("erin", T0).unwrap();
    let orders = l.lock_me_for_memo("erin", 5, 48 * DECIMAL_FACTOR).unwrap();
    assert_eq!(orders.transfer.amount, 5 * DECIMAL_FACTOR);
    assert_eq!(orders.transfer.from, key(&USER_SEED, "erin"));
    assert_eq!(orders.transfer.to, [2u8; 32]);
    assert_eq!(orders.mint.amount, 5 * DECIMAL_FACTOR);
    assert_eq!(orders.mint.mint, [1u8; 32]);
    assert_eq!(orders.mint.to, key(&USER_SEED, "erin"));
    let a = l.user("erin").unwrap();
    assert_eq!(a.total_me_locked, 5);
    assert_eq!(a.total_memo_earned, 5);
}

#[test]
fn lock_errors() {
    let mut l = new_ledger();
    l.initialize_user("erin", T0).unwrap();
    assert_eq!(
        l.lock_me_for_memo("erin", 0, 48 * DECIMAL_FACTOR).unwrap_err(),
        ErrorCode::InvalidAmount
    );
    assert_eq!(
        l.lock_me_for_memo("erin", 49, 48 * DECIMAL_FACTOR).unwrap_err(),
        ErrorCode::InsufficientBalance
    );
    assert_eq!(
        l.lock_me_for_memo("erin", u64::MAX, u64::MAX).unwrap_err(),
        ErrorCode::InsufficientBalance
    );
    assert_eq!(
        l.lock_me_for_memo("frank", 1, u64::MAX).unwrap_err(),
        ErrorCode::AccountNotFound
    );
    assert_eq!(l.user("erin").unwrap().total_me_locked, 0);
}

#[test]
fn connection_unlock_scenario() {
    let mut l = ledger_with_connection();
    assert_eq!(l.global().total_connections, 1);
    let c = l.connection("meet-1").unwrap();
    assert_eq!(c.user_a, key(&USER_SEED, "alice"));
    assert_eq!(c.user_b, key(&USER_SEED, "bob"));
    assert_eq!(c.key, key(&CONNECTION_SEED, "meet-1"));
    assert!(!c.user_a_unlocked && !c.user_b_unlocked);

    let beneficiary = [7u8; 32];
    let first = l.unlock_connection("meet-1", "alice", b"5678", beneficiary).unwrap();
    assert!(first.caller_unlocked);
    assert!(!first.both_complete);
    assert!(first.bonus.is_none());
    assert_eq!(first.reward.to, key(&USER_SEED, "alice"));
    assert_eq!(first.reward.mint, [1u8; 32]);
    assert_eq!(first.reward.amount, 8 * DECIMAL_FACTOR);
    assert!(l.connection("meet-1").unwrap().user_a_unlocked);
    assert_eq!(l.user("alice").unwrap().total_memo_earned, 8);
    assert_eq!(l.user("alice").unwrap().connections_count, 1);

    let again = l.unlock_connection("meet-1", "alice", b"5678", beneficiary);
    assert_eq!(again.unwrap_err(), ErrorCode::AlreadyUnlocked);
    assert_eq!(l.user("alice").unwrap().total_memo_earned, 8);

    let second = l.unlock_connection("meet-1", "bob", b"1234", beneficiary).unwrap();
    assert!(second.both_complete);
    assert_eq!(second.reward.to, key(&USER_SEED, "bob"));
    let bonus = second.bonus.unwrap();
    assert_eq!(bonus.to, beneficiary);
    assert_eq!(bonus.amount, 8 * DECIMAL_FACTOR);
    let c = l.connection("meet-1").unwrap();
    assert!(c.user_a_unlocked && c.user_b_unlocked);
    assert!(c.is_complete());

    let after = l.unlock_connection("meet-1", "bob", b"1234", beneficiary);
    assert_eq!(after.unwrap_err(), ErrorCode::ConnectionFullyUnlocked);
}

#[test]
fn wrong_secret_is_refused() {
    let mut l = ledger_with_connection();
    let r = l.unlock_connection("meet-1", "bob", b"wrong", [7u8; 32]);
    assert_eq!(r.unwrap_err(), ErrorCode::InvalidPin);
    assert!(!l.connection("meet-1").unwrap().user_b_unlocked);
    assert_eq!(l.user("bob").unwrap().total_memo_earned, 0);
    let own_secret = l.unlock_connection("meet-1", "bob", b"5678", [7u8; 32]);
    assert_eq!(own_secret.unwrap_err(), ErrorCode::InvalidPin);
}

#[test]
fn same_user_connection_is_refused() {
    let mut l = new_ledger();
    l.initialize_user("alice", T0).unwrap();
    let r = l.create_connection("solo", "alice", "alice", digest(b"1"), digest(b"2"), T0);
    assert_eq!(r.unwrap_err(), ErrorCode::SameUserConnection);
    assert_eq!(l.global().total_connections, 0);
    assert!(l.connection("solo").is_none());
}

#[test]
fn connection_creation_errors() {
    let mut l = ledger_with_connection();
    let dup = l.create_connection("meet-1", "alice", "bob", digest(b"1"), digest(b"2"), T0);
    assert_eq!(dup.unwrap_err(), ErrorCode::DuplicateConnection);
    let missing = l.create_connection("meet-2", "alice", "zoe", digest(b"1"), digest(b"2"), T0);
    assert_eq!(missing.unwrap_err(), ErrorCode::AccountNotFound);
    let long = "c".repeat(65);
    let too_long = l.create_connection(&long, "alice", "bob", digest(b"1"), digest(b"2"), T0);
    assert_eq!(too_long.unwrap_err(), ErrorCode::ConnectionIdTooLong);
    assert_eq!(l.global().total_connections, 1);
}

#[test]
fn unlock_lookup_errors() {
    let mut l = ledger_with_connection();
    l.initialize_user("mallory", T0).unwrap();
    let stranger = l.unlock_connection("meet-1", "mallory", b"5678", [7u8; 32]);
    assert_eq!(stranger.unwrap_err(), ErrorCode::UnauthorizedUser);
    let unknown = l.unlock_connection("meet-1", "nobody", b"5678", [7u8; 32]);
    assert_eq!(unknown.unwrap_err(), ErrorCode::UnauthorizedUser);
    let absent = l.unlock_connection("meet-9", "alice", b"5678", [7u8; 32]);
    assert_eq!(absent.unwrap_err(), ErrorCode::ConnectionNotFound);
}

#[test]
fn derived_keys_follow_the_digest() {
    let k = derive_account_key(b"user", "alice").unwrap();
    assert_eq!(k, key(b"user", "alice"));
    assert_ne!(k, derive_account_key(b"user", "alicf").unwrap());
    assert_ne!(k, derive_account_key(b"me_mint", "alice").unwrap());
    assert_eq!(&USER_SEED, b"user");
    assert_eq!(&ME_MINT_SEED, b"me_mint");
    assert_eq!(&CONNECTION_SEED, b"connection");
    let long = "z".repeat(65);
    assert_eq!(derive_account_key(b"user", &long).unwrap_err(), ErrorCode::UserIdTooLong);
}

#[test]
fn registration_step_refuses_duplicates_without_counting() {
    let mut l = new_ledger();
    let order = l.register_and_mint_initial("gina", T0).unwrap();
    assert_eq!(order.amount, 48 * DECIMAL_FACTOR);
    assert_eq!(order.to, key(&USER_SEED, "gina"));
    assert_eq!(order.mint, key(&ME_MINT_SEED, "gina"));
    assert_eq!(l.global().total_users, 0);
    let a = l.user("gina").unwrap();
    assert_eq!(a.daily_minted_today, 48);
    assert_eq!(a.total_me_minted, 48);
    assert_eq!(a.last_mint_time, T0);
    let again = l.register_and_mint_initial("gina", T0 + 1);
    assert_eq!(again.unwrap_err(), ErrorCode::DuplicateRegistration);
    assert_eq!(l.user("gina").unwrap().last_mint_time, T0);
    let long = "g".repeat(65);
    assert_eq!(l.register_and_mint_initial(&long, T0).unwrap_err(), ErrorCode::UserIdTooLong);
}

#[test]
fn non_party_of_complete_connection_is_unauthorized() {
    let mut l = ledger_with_connection();
    l.initialize_user("mallory", T0).unwrap();
    l.unlock_connection("meet-1", "alice", b"5678", [7u8; 32]).unwrap();
    l.unlock_connection("meet-1", "bob", b"1234", [7u8; 32]).unwrap();
    let r = l.unlock_connection("meet-1", "mallory", b"1234", [7u8; 32]);
    assert_eq!(r.unwrap_err(), ErrorCode::UnauthorizedUser);
    assert_eq!(l.user("mallory").unwrap().total_memo_earned, 0);
}
