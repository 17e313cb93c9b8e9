use payments_engine::account::{check_positive, Manager, SimpleManager};
use payments_engine::types::{Account, Transaction, TxType, MAX_AMOUNT};

fn account_of(accounts: &[Account], client_id: u16) -> Account {
    *accounts
        .iter()
        .find(|a| a.client_id == client_id)
        .expect("Account not found")
}

#[test]
fn check_positive_for_positive_amount_is_ok() {
    assert!(check_positive(1).is_ok());
    assert!(check_positive(0).is_err());
}

#[test]
fn check_positive_for_negative_amount_is_err() {
    assert!(check_positive(-1).is_err());
}

#[test]
fn ensure_account_creates_account() {
    let mut manager = SimpleManager::new();

    let result = manager.ensure_account(1);
    assert!(result.is_ok());

    let acc = account_of(&manager.all(), 1);
    assert_eq!(acc.client_id, 1);
}

#[test]
fn deposit_returns_error_when_account_not_found() {
    let mut manager = SimpleManager::new();
    let result = manager.deposit(1, 10);
    assert!(result.is_err());
    assert_eq!(manager.all().len(), 0);
}

#[test]
fn deposit_adds_to_available_amount() {
    let mut manager = SimpleManager::new();
    let tx = Transaction::new(TxType::Deposit, 1, 1, 10);

    assert!(manager.ensure_account(tx.client_id).is_ok());

    let result = manager.deposit(tx.client_id, tx.amount);
    assert!(result.is_ok(), "expected ok but got {:?}", result);

    assert_eq!(manager.all().len(), 1);

    let acc = account_of(&manager.all(), 1);

    assert_eq!(acc.client_id, tx.client_id);
    assert_eq!(acc.is_locked, false);
    assert_eq!(acc.available_amount, tx.amount);
    assert_eq!(acc.held_amount, 0);
}

#[test]
fn deposit_returns_error_when_it_would_cause_overflow() {
    let mut manager = SimpleManager::new();
    let client_id = 1;

    assert!(manager.ensure_account(client_id).is_ok());
    assert!(manager.deposit(client_id, MAX_AMOUNT).is_ok());
    assert!(manager.deposit(client_id, 1).is_err());

    let acc = account_of(&manager.all(), 1);

    assert_eq!(acc.available_amount, MAX_AMOUNT);
}

#[test]
fn withdraw_returns_error_when_account_not_found() {
    let mut manager = SimpleManager::new();
    let result = manager.withdraw(1, 10);
    assert!(result.is_err());
}

#[test]
fn withdraw_substracts_from_available_amount() {
    let mut manager = SimpleManager::new();
    let client_id = 1;

    assert!(manager.ensure_account(client_id).is_ok());
    assert!(manager.deposit(client_id, 10).is_ok());
    assert!(manager.withdraw(client_id, 1).is_ok());

    let acc = account_of(&manager.all(), client_id);

    assert_eq!(acc.available_amount, 9);
}

#[test]
fn withdraw_returns_error_when_amount_greater_than_available_amount() {
    let mut manager = SimpleManager::new();
    let client_id = 1;

    assert!(manager.ensure_account(client_id).is_ok());
    assert!(manager.deposit(client_id, 10).is_ok());
    assert!(manager.withdraw(client_id, 11).is_err());

    let acc = account_of(&manager.all(), client_id);

    assert_eq!(acc.available_amount, 10);
}

#[test]
fn hold_returns_error_when_account_not_found() {
    let mut manager = SimpleManager::new();
    let result = manager.hold(1, 1);
    assert!(result.is_err());
}

#[test]
fn hold_moves_amount_from_available_amount_to_held_amount() {
    let mut manager = SimpleManager::new();
    let client_id = 1;

    assert!(manager.ensure_account(client_id).is_ok());
    assert!(manager.deposit(client_id, 10).is_ok());
    assert!(manager.hold(1, 1).is_ok());

    let acc = account_of(&manager.all(), client_id);
    assert_eq!(acc.available_amount, 9);
    assert_eq!(acc.held_amount, 1);
}

#[test]
fn hold_returns_error_when_amount_greater_than_available_amount() {
    let mut manager = SimpleManager::new();
    let client_id = 1;
    assert!(manager.ensure_account(client_id).is_ok());
    assert!(manager.hold(1, 1).is_err());
}

#[test]
fn hold_returns_error_when_it_would_cause_overflow() {
    let mut manager = SimpleManager::new();
    let client_id = 1;

    assert!(manager.ensure_account(client_id).is_ok());
    assert!(manager.deposit(client_id, MAX_AMOUNT).is_ok());
    assert!(manager.hold(client_id, MAX_AMOUNT).is_ok());
    assert!(manager.deposit(client_id, 1).is_ok());
    assert!(manager.hold(client_id, 1).is_err());

    let acc = account_of(&manager.all(), 1);

    assert_eq!(acc.available_amount, 1);
    assert_eq!(acc.held_amount, MAX_AMOUNT);
}

#[test]
fn release_returns_error_when_account_not_found() {
    let mut manager = SimpleManager::new();
    let result = manager.release(1, 1);
    assert!(result.is_err());
}

#[test]
fn release_moves_amount_from_held_amount_to_available_amount() {
    let mut manager = SimpleManager::new();
    let client_id = 1;

    assert!(manager.ensure_account(client_id).is_ok());
    assert!(manager.deposit(client_id, 10).is_ok());
    assert!(manager.hold(client_id, 1).is_ok());
    assert!(manager.release(client_id, 1).is_ok());

    let acc = account_of(&manager.all(), client_id);
    assert_eq!(acc.available_amount, 10);
    assert_eq!(acc.held_amount, 0);
}

#[test]
fn release_returns_error_when_amount_greater_than_held_amount() {
    let mut manager = SimpleManager::new();
    let client_id = 1;
    assert!(manager.ensure_account(client_id).is_ok());
    assert!(manager.release(client_id, 1).is_err());
}

#[test]
fn release_returns_error_when_it_would_cause_overflow() {
    let mut manager = SimpleManager::new();
    let client_id = 1;

    assert!(manager.ensure_account(client_id).is_ok());
    assert!(manager.deposit(client_id, 1).is_ok());
    assert!(manager.hold(client_id, 1).is_ok());
    assert!(manager.deposit(client_id, MAX_AMOUNT).is_ok());
    assert!(manager.release(client_id, 1).is_err());

    let acc = account_of(&manager.all(), 1);

    assert_eq!(acc.available_amount, MAX_AMOUNT);
    assert_eq!(acc.held_amount, 1);
}

#[test]
fn withdraw_held_returns_error_when_account_not_found() {
    let mut manager = SimpleManager::new();
    let result = manager.withdraw_held(1, 10);
    assert!(result.is_err());
}

#[test]
fn withdraw_held_substracts_from_held_amount() {
    let mut manager = SimpleManager::new();
    let client_id = 1;

    assert!(manager.ensure_account(client_id).is_ok());
    assert!(manager.deposit(client_id, 10).is_ok());
    assert!(manager.hold(client_id, 1).is_ok());
    assert!(manager.withdraw_held(client_id, 1).is_ok());

    let acc = account_of(&manager.all(), client_id);

    assert_eq!(acc.available_amount, 9);
    assert_eq!(acc.held_amount, 0);
}

#[test]
fn withdraw_held_returns_error_when_amount_greater_than_held_amount() {
    let mut manager = SimpleManager::new();
    let client_id = 1;

    assert!(manager.ensure_account(client_id).is_ok());
    assert!(manager.deposit(client_id, 10).is_ok());
    assert!(manager.hold(client_id, 1).is_ok());
    assert!(manager.withdraw_held(client_id, 2).is_err());

    let acc = account_of(&manager.all(), client_id);

    assert_eq!(acc.available_amount, 9);
    assert_eq!(acc.held_amount, 1);
}

#[test]
fn lock_returns_error_when_account_not_found() {
    let mut manager = SimpleManager::new();
    assert!(manager.lock(1).is_err());
}

#[test]
fn lock_locks_account() {
    let mut manager = SimpleManager::new();
    let client_id = 1;

    assert!(manager.ensure_account(client_id).is_ok());
    assert!(manager.lock(client_id).is_ok());

    let acc = account_of(&manager.all(), client_id);

    assert!(acc.is_locked);
}

#[test]
fn is_locked_returns_error_when_account_not_found() {
    let mut manager = SimpleManager::new();
    assert!(manager.is_locked(1).is_err());
}

#[test]
fn is_locked_returns_false_when_account_is_not_locked() {
    let mut manager = SimpleManager::new();
    let client_id = 1;

    assert!(manager.ensure_account(client_id).is_ok());

    let result = manager.is_locked(client_id);

    assert!(result.is_ok());
    assert_eq!(result.unwrap(), false);
}

#[test]
fn is_locked_returns_true_when_account_is_locked() {
    let mut manager = SimpleManager::new();
    let client_id = 1;

    assert!(manager.ensure_account(client_id).is_ok());
    assert!(manager.lock(client_id).is_ok());

    let result = manager.is_locked(client_id);

    assert!(result.is_ok());
    assert_eq!(result.unwrap(), true);
}
