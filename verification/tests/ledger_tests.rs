use vault_ledger::errors::CustomError;
use vault_ledger::ledger::Ledger;

const AUTHORITY: u64 = 1;
const USER: u64 = 2;
const OTHER: u64 = 3;

fn ledger_with_user(funds: u64) -> Ledger {
    let mut l = Ledger::new();
    assert_eq!(l.initialize_vault(AUTHORITY), Ok(()));
    assert_eq!(l.initialize_deposit(USER, funds), Ok(()));
    l
}

#[test]
fn new_ledger_is_empty() {
    let l = Ledger::new();
    assert_eq!(l.total_balance(), None);
    assert_eq!(l.balance_of(USER), None);
    assert_eq!(l.wallet_of(USER), None);
    assert_eq!(l.vault_custody, 0);
}

#[test]
fn initialize_vault_sets_authority_and_zero_balance() {
    let mut l = Ledger::new();
    assert_eq!(l.initialize_vault(AUTHORITY), Ok(()));
    let v = l.vault.unwrap();
    assert_eq!(v.authority, AUTHORITY);
    assert_eq!(v.total_balance, 0);
}

#[test]
fn initialize_deposit_sets_owner_zero_balance_and_funds() {
    let l = ledger_with_user(250);
    assert_eq!(l.balance_of(USER), Some(0));
    assert_eq!(l.wallet_of(USER), Some(250));
    assert_eq!(l.depositors[0].record.owner, USER);
}

#[test]
fn end_to_end_vault_lifecycle() {
    let mut l = ledger_with_user(200);
    assert_eq!(l.deposit(USER, USER, 100), Ok(()));
    assert_eq!(l.total_balance(), Some(100));
    assert_eq!(l.balance_of(USER), Some(100));
    assert_eq!(l.withdraw(USER, USER, 40), Ok(()));
    assert_eq!(l.total_balance(), Some(60));
    assert_eq!(l.balance_of(USER), Some(60));
    assert_eq!(l.withdraw(USER, USER, 100), Err(CustomError::InsufficientFunds));
    assert_eq!(l.total_balance(), Some(60));
    assert_eq!(l.balance_of(USER), Some(60));
}

#[test]
fn withdraw_more_than_balance_fails_and_mutates_nothing() {
    let mut l = ledger_with_user(50);
    assert_eq!(l.deposit(USER, USER, 50), Ok(()));
    assert_eq!(l.withdraw(USER, USER, 100), Err(CustomError::InsufficientFunds));
    assert_eq!(l.balance_of(USER), Some(50));
    assert_eq!(l.total_balance(), Some(50));
    assert_eq!(l.wallet_of(USER), Some(0));
}

#[test]
fn deposit_by_wrong_caller_fails_and_mutates_nothing() {
    let mut l = ledger_with_user(100);
    assert_eq!(l.deposit(USER, OTHER, 10), Err(CustomError::UnauthorizedAccess));
    assert_eq!(l.balance_of(USER), Some(0));
    assert_eq!(l.wallet_of(USER), Some(100));
    assert_eq!(l.total_balance(), Some(0));
}

#[test]
fn withdraw_by_wrong_caller_fails_and_mutates_nothing() {
    let mut l = ledger_with_user(100);
    assert_eq!(l.deposit(USER, USER, 80), Ok(()));
    assert_eq!(l.withdraw(USER, OTHER, 10), Err(CustomError::UnauthorizedAccess));
    assert_eq!(l.balance_of(USER), Some(80));
    assert_eq!(l.total_balance(), Some(80));
}

#[test]
fn deposit_overflowing_total_fails_and_mutates_nothing() {
    let mut l = ledger_with_user(u64::MAX);
    assert_eq!(l.deposit(USER, USER, u64::MAX), Ok(()));
    assert_eq!(l.total_balance(), Some(u64::MAX));
    assert_eq!(l.initialize_deposit(OTHER, 10), Ok(()));
    assert_eq!(l.deposit(OTHER, OTHER, 1), Err(CustomError::ArithmeticOverflow));
    assert_eq!(l.total_balance(), Some(u64::MAX));
    assert_eq!(l.balance_of(OTHER), Some(0));
    assert_eq!(l.wallet_of(OTHER), Some(10));
    assert_eq!(l.balance_of(USER), Some(u64::MAX));
}

#[test]
fn reinitializing_vault_fails_and_keeps_record() {
    let mut l = ledger_with_user(100);
    assert_eq!(l.deposit(USER, USER, 30), Ok(()));
    assert_eq!(l.initialize_vault(OTHER), Err(CustomError::DuplicateRecord));
    let v = l.vault.unwrap();
    assert_eq!(v.authority, AUTHORITY);
    assert_eq!(v.total_balance, 30);
}

#[test]
fn reinitializing_depositor_fails_and_keeps_record() {
    let mut l = ledger_with_user(100);
    assert_eq!(l.deposit(USER, USER, 30), Ok(()));
    assert_eq!(l.initialize_deposit(USER, 999), Err(CustomError::DuplicateRecord));
    assert_eq!(l.balance_of(USER), Some(30));
    assert_eq!(l.wallet_of(USER), Some(70));
}

#[test]
fn operations_without_vault_fail() {
    let mut l = Ledger::new();
    assert_eq!(l.initialize_deposit(USER, 100), Ok(()));
    assert_eq!(l.deposit(USER, USER, 10), Err(CustomError::MissingRecord));
    assert_eq!(l.withdraw(USER, USER, 10), Err(CustomError::MissingRecord));
    assert_eq!(l.balance_of(USER), Some(0));
    assert_eq!(l.wallet_of(USER), Some(100));
}

#[test]
fn operations_without_depositor_record_fail() {
    let mut l = Ledger::new();
    assert_eq!(l.initialize_vault(AUTHORITY), Ok(()));
    assert_eq!(l.deposit(USER, USER, 10), Err(CustomError::MissingRecord));
    assert_eq!(l.withdraw(USER, USER, 10), Err(CustomError::MissingRecord));
    assert_eq!(l.total_balance(), Some(0));
}

#[test]
fn deposit_beyond_custody_fails_as_transfer_failure() {
    let mut l = ledger_with_user(10);
    assert_eq!(l.deposit(USER, USER, 20), Err(CustomError::TransferFailure));
    assert_eq!(l.balance_of(USER), Some(0));
    assert_eq!(l.wallet_of(USER), Some(10));
    assert_eq!(l.total_balance(), Some(0));
}

#[test]
fn balance_is_net_of_successful_flows() {
    let mut l = ledger_with_user(1000);
    assert_eq!(l.deposit(USER, USER, 300), Ok(()));
    assert_eq!(l.withdraw(USER, USER, 120), Ok(()));
    assert_eq!(l.deposit(USER, USER, 50), Ok(()));
    assert_eq!(l.withdraw(USER, USER, 500), Err(CustomError::InsufficientFunds));
    assert_eq!(l.deposit(USER, USER, 7), Ok(()));
    // 300 - 120 + 50 + 7, the failed withdrawal counting for nothing
    assert_eq!(l.balance_of(USER), Some(237));
    assert_eq!(l.wallet_of(USER), Some(1000 - 237));
}

#[test]
fn total_is_sum_of_balances_across_depositors() {
    let mut l = Ledger::new();
    assert_eq!(l.initialize_vault(AUTHORITY), Ok(()));
    assert_eq!(l.initialize_deposit(USER, 500), Ok(()));
    assert_eq!(l.initialize_deposit(OTHER, 500), Ok(()));
    assert_eq!(l.deposit(USER, USER, 200), Ok(()));
    assert_eq!(l.deposit(OTHER, OTHER, 150), Ok(()));
    assert_eq!(l.withdraw(USER, USER, 60), Ok(()));
    let user_balance = l.balance_of(USER).unwrap();
    let other_balance = l.balance_of(OTHER).unwrap();
    assert_eq!(l.total_balance(), Some(user_balance + other_balance));
    assert_eq!(l.total_balance(), Some(290));
}

#[test]
fn custody_moves_in_lockstep_with_ledger() {
    let mut l = ledger_with_user(400);
    assert_eq!(l.deposit(USER, USER, 250), Ok(()));
    assert_eq!(l.vault_custody, 250);
    assert_eq!(l.wallet_of(USER), Some(150));
    assert_eq!(l.withdraw(USER, USER, 100), Ok(()));
    assert_eq!(l.vault_custody, 150);
    assert_eq!(l.wallet_of(USER), Some(250));
    assert_eq!(l.total_balance(), Some(150));
}
