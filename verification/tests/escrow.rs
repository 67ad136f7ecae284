use escrow_core::address::Address;
use escrow_core::address::CANONICAL_BUMP;
use escrow_core::address::derive_escrow_address;
use escrow_core::address::derive_vault_address;
use escrow_core::error::ErrorClass;
use escrow_core::error::EscrowError;
use escrow_core::escrow::Ledger;

const MAKER: u64 = 1;
const TAKER: u64 = 2;
const OUTSIDER: u64 = 3;
const MINT_A: u64 = 100;
const MINT_B: u64 = 200;

/// A ledger where the maker holds a supply of mint A, as the surrounding
/// environment would fund it.
fn setup() -> Ledger {
    let mut ledger = Ledger::new();
    ledger.mint_to(MAKER, MINT_A, 1_000_000_000).unwrap();
    ledger
}

/// A funded ledger with one open offer made with the given terms.
fn setup_with_make(seed: u64, deposit: u64, receive: u64, waiting_time: i64, now: i64) -> Ledger {
    let mut ledger = setup();
    ledger
        .make(MAKER, seed, MINT_A, MINT_B, deposit, receive, waiting_time, now)
        .unwrap();
    ledger
}

/// Fund the taker with mint B, as the original flow mints to the taker's
/// account before a take.
fn fund_taker(ledger: &mut Ledger) {
    ledger.mint_to(TAKER, MINT_B, 1_000_000_000).unwrap();
}

#[test]
fn test_make() {
    let mut ledger = setup();
    ledger
        .make(MAKER, 123u64, MINT_A, MINT_B, 10, 10, 0, 0)
        .unwrap();

    let escrow = derive_escrow_address(MAKER, 123u64);
    let vault = derive_vault_address(escrow, MINT_A);

    assert_eq!(ledger.balance_of(vault, MINT_A), 10, "Vault should have 10 tokens");
    assert_eq!(
        vault,
        Address::Vault { maker: MAKER, seed: 123u64, mint: MINT_A },
        "Vault owner should be escrow PDA"
    );

    let escrow_data = ledger.escrow_of(MAKER, 123u64).unwrap();
    assert_eq!(escrow_data.seed, 123u64, "Escrow seed should be 123");
    assert_eq!(escrow_data.maker, MAKER, "Escrow maker should match");
    assert_eq!(escrow_data.mint_a, MINT_A, "Escrow mint_a should match");
    assert_eq!(escrow_data.mint_b, MINT_B, "Escrow mint_b should match");
    assert_eq!(escrow_data.receive, 10, "Escrow receive amount should be 10");
}

#[test]
fn test_refund() {
    let mut ledger = setup_with_make(123u64, 10, 10, 0, 0);

    let maker_balance_before = ledger.balance_of(Address::Key(MAKER), MINT_A);
    ledger.refund(MAKER, MAKER, 123u64).unwrap();
    let maker_balance_after = ledger.balance_of(Address::Key(MAKER), MINT_A);

    assert_eq!(
        maker_balance_after,
        maker_balance_before + 10,
        "Tokens should be returned to maker"
    );
}

#[test]
fn test_take() {
    let mut ledger = setup_with_make(123u64, 10, 40, 0, 0);
    fund_taker(&mut ledger);

    ledger.take(TAKER, MAKER, 123u64, 0).unwrap();

    assert_eq!(
        ledger.balance_of(Address::Key(TAKER), MINT_A),
        10,
        "Taker should receive 10 tokens of mint A"
    );
    assert_eq!(
        ledger.balance_of(Address::Key(MAKER), MINT_B),
        40,
        "Maker should receive 10 tokens of mint B"
    );
}

#[test]
fn test_take_with_waiting_time() {
    let waiting_time = 300i64;
    let start_time = 100i64;
    let mut ledger = setup_with_make(123u64, 40, 90, waiting_time, start_time);
    fund_taker(&mut ledger);

    let result_before_waiting = ledger.take(TAKER, MAKER, 123u64, start_time);
    assert!(result_before_waiting.is_err(), "Take should fail before waiting time");

    ledger
        .take(TAKER, MAKER, 123u64, start_time + waiting_time)
        .unwrap();

    assert_eq!(ledger.balance_of(Address::Key(TAKER), MINT_A), 40);
    assert_eq!(ledger.balance_of(Address::Key(MAKER), MINT_B), 90);
}

#[test]
fn immediate_swap_closes_offer() {
    // Deposit 10 A for 10 B under seed 123 with no waiting time: any taker
    // who pays 10 B succeeds at once, and the offer is gone.
    let mut ledger = setup_with_make(123u64, 10, 10, 0, 0);
    fund_taker(&mut ledger);

    let taker_a_before = ledger.balance_of(Address::Key(TAKER), MINT_A);
    let taker_b_before = ledger.balance_of(Address::Key(TAKER), MINT_B);
    let maker_b_before = ledger.balance_of(Address::Key(MAKER), MINT_B);

    ledger.take(TAKER, MAKER, 123u64, 0).unwrap();

    assert_eq!(ledger.balance_of(Address::Key(TAKER), MINT_A), taker_a_before + 10);
    assert_eq!(ledger.balance_of(Address::Key(TAKER), MINT_B), taker_b_before - 10);
    assert_eq!(ledger.balance_of(Address::Key(MAKER), MINT_B), maker_b_before + 10);
    assert!(ledger.escrow_of(MAKER, 123u64).is_none());

    let vault = derive_vault_address(derive_escrow_address(MAKER, 123u64), MINT_A);
    assert_eq!(ledger.balance_of(vault, MINT_A), 0);
}

#[test]
fn make_rejects_zero_amounts() {
    let mut ledger = setup();
    assert_eq!(
        ledger.make(MAKER, 7, MINT_A, MINT_B, 0, 10, 0, 0),
        Err(EscrowError::ZeroAmount)
    );
    assert_eq!(
        ledger.make(MAKER, 7, MINT_A, MINT_B, 10, 0, 0, 0),
        Err(EscrowError::ZeroAmount)
    );
    assert!(ledger.escrow_of(MAKER, 7).is_none());
}

#[test]
fn make_rejects_self_swap() {
    let mut ledger = setup();
    assert_eq!(
        ledger.make(MAKER, 7, MINT_A, MINT_A, 10, 10, 0, 0),
        Err(EscrowError::SameAsset)
    );
}

#[test]
fn make_rejects_duplicate_seed() {
    let mut ledger = setup_with_make(123u64, 10, 10, 0, 0);
    let vault = derive_vault_address(derive_escrow_address(MAKER, 123u64), MINT_A);
    let vault_before = ledger.balance_of(vault, MINT_A);
    let record_before = ledger.escrow_of(MAKER, 123u64).unwrap();

    assert_eq!(
        ledger.make(MAKER, 123u64, MINT_A, MINT_B, 25, 30, 0, 0),
        Err(EscrowError::DuplicateEscrow)
    );

    // The original record and vault are unchanged.
    assert_eq!(ledger.escrow_of(MAKER, 123u64).unwrap(), record_before);
    assert_eq!(ledger.balance_of(vault, MINT_A), vault_before);
}

#[test]
fn make_rejects_underfunded_maker() {
    let mut ledger = Ledger::new();
    ledger.mint_to(MAKER, MINT_A, 5).unwrap();
    assert_eq!(
        ledger.make(MAKER, 7, MINT_A, MINT_B, 10, 10, 0, 0),
        Err(EscrowError::InsufficientFunds)
    );
}

#[test]
fn make_allows_concurrent_offers_per_maker() {
    let mut ledger = setup();
    ledger.make(MAKER, 1, MINT_A, MINT_B, 10, 10, 0, 0).unwrap();
    ledger.make(MAKER, 2, MINT_A, MINT_B, 20, 30, 0, 0).unwrap();
    assert_eq!(ledger.escrow_of(MAKER, 1).unwrap().receive, 10);
    assert_eq!(ledger.escrow_of(MAKER, 2).unwrap().receive, 30);
}

#[test]
fn take_before_unlock_changes_nothing() {
    let mut ledger = setup_with_make(123u64, 40, 90, 300, 100);
    fund_taker(&mut ledger);

    let taker_a = ledger.balance_of(Address::Key(TAKER), MINT_A);
    let taker_b = ledger.balance_of(Address::Key(TAKER), MINT_B);
    let maker_b = ledger.balance_of(Address::Key(MAKER), MINT_B);
    let vault = derive_vault_address(derive_escrow_address(MAKER, 123u64), MINT_A);
    let vault_a = ledger.balance_of(vault, MINT_A);

    assert_eq!(ledger.take(TAKER, MAKER, 123u64, 399), Err(EscrowError::TooEarly));

    assert_eq!(ledger.balance_of(Address::Key(TAKER), MINT_A), taker_a);
    assert_eq!(ledger.balance_of(Address::Key(TAKER), MINT_B), taker_b);
    assert_eq!(ledger.balance_of(Address::Key(MAKER), MINT_B), maker_b);
    assert_eq!(ledger.balance_of(vault, MINT_A), vault_a);
    assert!(ledger.escrow_of(MAKER, 123u64).is_some());
}

#[test]
fn take_at_unlock_succeeds_exactly_once() {
    let mut ledger = setup_with_make(123u64, 40, 90, 300, 100);
    fund_taker(&mut ledger);

    // At exactly the unlock time the take goes through.
    ledger.take(TAKER, MAKER, 123u64, 400).unwrap();
    assert!(ledger.escrow_of(MAKER, 123u64).is_none());

    // The record is gone, so a second take fails as not found.
    assert_eq!(
        ledger.take(TAKER, MAKER, 123u64, 400),
        Err(EscrowError::EscrowNotFound)
    );
}

#[test]
fn take_rejects_underfunded_taker() {
    let mut ledger = setup_with_make(123u64, 10, 40, 0, 0);
    ledger.mint_to(TAKER, MINT_B, 39).unwrap();
    assert_eq!(
        ledger.take(TAKER, MAKER, 123u64, 0),
        Err(EscrowError::InsufficientFunds)
    );
    assert!(ledger.escrow_of(MAKER, 123u64).is_some());
}

#[test]
fn take_on_unknown_offer_fails() {
    let mut ledger = setup();
    fund_taker(&mut ledger);
    assert_eq!(
        ledger.take(TAKER, MAKER, 999u64, 0),
        Err(EscrowError::EscrowNotFound)
    );
}

#[test]
fn refund_by_outsider_changes_nothing() {
    let mut ledger = setup_with_make(123u64, 10, 10, 0, 0);
    let vault = derive_vault_address(derive_escrow_address(MAKER, 123u64), MINT_A);
    let vault_before = ledger.balance_of(vault, MINT_A);
    let outsider_before = ledger.balance_of(Address::Key(OUTSIDER), MINT_A);

    assert_eq!(
        ledger.refund(OUTSIDER, MAKER, 123u64),
        Err(EscrowError::WrongMaker)
    );

    assert_eq!(ledger.balance_of(vault, MINT_A), vault_before);
    assert_eq!(ledger.balance_of(Address::Key(OUTSIDER), MINT_A), outsider_before);
    assert!(ledger.escrow_of(MAKER, 123u64).is_some());
}

#[test]
fn refund_closes_offer_and_second_refund_fails() {
    let mut ledger = setup_with_make(123u64, 10, 10, 0, 0);

    ledger.refund(MAKER, MAKER, 123u64).unwrap();
    assert!(ledger.escrow_of(MAKER, 123u64).is_none());

    let vault = derive_vault_address(derive_escrow_address(MAKER, 123u64), MINT_A);
    assert_eq!(ledger.balance_of(vault, MINT_A), 0);

    assert_eq!(
        ledger.refund(MAKER, MAKER, 123u64),
        Err(EscrowError::EscrowNotFound)
    );
}

#[test]
fn refund_ignores_time_lock() {
    // The maker can always cancel, even during an active waiting window.
    let mut ledger = setup_with_make(123u64, 10, 10, 1_000_000, 0);
    ledger.refund(MAKER, MAKER, 123u64).unwrap();
    assert!(ledger.escrow_of(MAKER, 123u64).is_none());
}

#[test]
fn negative_waiting_time_makes_offer_takeable_at_once() {
    let mut ledger = setup_with_make(123u64, 10, 10, -50, 100);
    fund_taker(&mut ledger);
    ledger.take(TAKER, MAKER, 123u64, 100).unwrap();
    assert_eq!(ledger.balance_of(Address::Key(TAKER), MINT_A), 10);
}

#[test]
fn mint_to_rejects_overflow() {
    let mut ledger = Ledger::new();
    ledger.mint_to(MAKER, MINT_A, u64::MAX).unwrap();
    assert_eq!(
        ledger.mint_to(MAKER, MINT_A, 1),
        Err(EscrowError::BalanceOverflow)
    );
    assert_eq!(ledger.balance_of(Address::Key(MAKER), MINT_A), u64::MAX);
}

#[test]
fn transfer_moves_funds_between_key_accounts() {
    let mut ledger = setup();
    ledger.transfer(MAKER, TAKER, MINT_A, 250).unwrap();
    assert_eq!(ledger.balance_of(Address::Key(TAKER), MINT_A), 250);
    assert_eq!(
        ledger.balance_of(Address::Key(MAKER), MINT_A),
        1_000_000_000 - 250
    );
    assert_eq!(
        ledger.transfer(TAKER, MAKER, MINT_A, 251),
        Err(EscrowError::InsufficientFunds)
    );
}

#[test]
fn transfer_cannot_reach_the_vault() {
    // The vault's custody authority is the derived escrow address; an
    // ordinary signed transfer reaches only key-held accounts, so the vault
    // balance stays as the make left it.
    let mut ledger = setup_with_make(123u64, 10, 10, 0, 0);
    ledger.transfer(MAKER, TAKER, MINT_A, 5).unwrap();
    let vault = derive_vault_address(derive_escrow_address(MAKER, 123u64), MINT_A);
    assert_eq!(ledger.balance_of(vault, MINT_A), 10);
}

#[test]
fn derivation_is_deterministic_and_keyless() {
    let e1 = derive_escrow_address(MAKER, 123u64);
    let e2 = derive_escrow_address(MAKER, 123u64);
    assert_eq!(e1, e2);
    assert_ne!(e1, derive_escrow_address(MAKER, 124u64));
    assert_ne!(e1, derive_escrow_address(TAKER, 123u64));

    let v1 = derive_vault_address(e1, MINT_A);
    let v2 = derive_vault_address(e1, MINT_B);
    assert_ne!(v1, v2);
    assert_ne!(v1, e1);
    assert_ne!(e1, Address::Key(MAKER));
    assert_ne!(v1, Address::Key(MAKER));
}

#[test]
fn recorded_bump_is_canonical() {
    let ledger = setup_with_make(123u64, 10, 10, 0, 0);
    assert_eq!(ledger.escrow_of(MAKER, 123u64).unwrap().bump, CANONICAL_BUMP);
}

#[test]
fn error_classes_are_distinct() {
    assert_eq!(EscrowError::ZeroAmount.class(), ErrorClass::Validation);
    assert_eq!(EscrowError::SameAsset.class(), ErrorClass::Validation);
    assert_eq!(EscrowError::DuplicateEscrow.class(), ErrorClass::Stale);
    assert_eq!(EscrowError::EscrowNotFound.class(), ErrorClass::Stale);
    assert_eq!(EscrowError::TooEarly.class(), ErrorClass::Timing);
    assert_eq!(EscrowError::WrongMaker.class(), ErrorClass::Authorization);
    assert_eq!(EscrowError::InsufficientFunds.class(), ErrorClass::Custody);
    assert_eq!(EscrowError::BalanceOverflow.class(), ErrorClass::Custody);

    assert!(EscrowError::TooEarly.retryable_later());
    assert!(!EscrowError::DuplicateEscrow.retryable_later());
    assert!(!EscrowError::WrongMaker.retryable_later());
}
