use ledger_chain::ledger::{AccountsDatabase, LedgerError};

#[test]
fn create_then_get_balance_returns_initial() {
    let mut db = AccountsDatabase::new();
    assert_eq!(db.create_account("alice".to_string(), 100), Ok(()));
    assert_eq!(db.get_balance("alice"), Ok(100));
}

#[test]
fn duplicate_create_keeps_existing_account() {
    let mut db = AccountsDatabase::new();
    assert_eq!(db.create_account("alice".to_string(), 100), Ok(()));
    assert_eq!(
        db.create_account("alice".to_string(), 7),
        Err(LedgerError::DuplicateAccount)
    );
    assert_eq!(db.get_balance("alice"), Ok(100));
}

#[test]
fn successful_transfer_moves_exactly_the_amount() {
    let mut db = AccountsDatabase::new();
    db.create_account("alice".to_string(), 100).unwrap();
    db.create_account("bob".to_string(), 5).unwrap();
    assert_eq!(db.transfer("alice", "bob", 40), Ok(()));
    assert_eq!(db.get_balance("alice"), Ok(60));
    assert_eq!(db.get_balance("bob"), Ok(45));
    // The sum over all accounts is conserved.
    assert_eq!(
        db.get_balance("alice").unwrap() + db.get_balance("bob").unwrap(),
        105
    );
}

#[test]
fn insufficient_transfer_fails_and_changes_nothing() {
    let mut db = AccountsDatabase::new();
    db.create_account("alice".to_string(), 10).unwrap();
    db.create_account("bob".to_string(), 3).unwrap();
    assert_eq!(
        db.transfer("alice", "bob", 50),
        Err(LedgerError::InsufficientBalance)
    );
    assert_eq!(db.get_balance("alice"), Ok(10));
    assert_eq!(db.get_balance("bob"), Ok(3));
}

#[test]
fn transfer_from_missing_account_fails() {
    let mut db = AccountsDatabase::new();
    db.create_account("bob".to_string(), 3).unwrap();
    assert_eq!(
        db.transfer("alice", "bob", 1),
        Err(LedgerError::AccountNotFound)
    );
    assert_eq!(db.get_balance("bob"), Ok(3));
}

#[test]
fn transfer_to_missing_account_fails_without_creating_it() {
    let mut db = AccountsDatabase::new();
    db.create_account("alice".to_string(), 10).unwrap();
    assert_eq!(
        db.transfer("alice", "ghost", 1),
        Err(LedgerError::AccountNotFound)
    );
    assert_eq!(db.get_balance("alice"), Ok(10));
    assert_eq!(db.get_balance("ghost"), Err(LedgerError::AccountNotFound));
}

#[test]
fn self_transfer_applies_once_and_conserves_the_balance() {
    let mut db = AccountsDatabase::new();
    db.create_account("alice".to_string(), 100).unwrap();
    assert_eq!(db.transfer("alice", "alice", 40), Ok(()));
    assert_eq!(db.get_balance("alice"), Ok(100));
    assert_eq!(
        db.transfer("alice", "alice", 200),
        Err(LedgerError::InsufficientBalance)
    );
    assert_eq!(db.get_balance("alice"), Ok(100));
}

#[test]
fn transfer_overflowing_the_receiver_fails_and_changes_nothing() {
    let mut db = AccountsDatabase::new();
    db.create_account("rich".to_string(), u64::MAX).unwrap();
    db.create_account("bob".to_string(), 5).unwrap();
    assert_eq!(
        db.transfer("bob", "rich", 1),
        Err(LedgerError::BalanceOverflow)
    );
    assert_eq!(db.get_balance("rich"), Ok(u64::MAX));
    assert_eq!(db.get_balance("bob"), Ok(5));
}

#[test]
fn balance_of_missing_account_is_not_found() {
    let db = AccountsDatabase::new();
    assert_eq!(db.get_balance("nonexistent"), Err(LedgerError::AccountNotFound));
}
