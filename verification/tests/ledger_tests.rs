use bank_protocol::ledger::{AuthResult, Bank, LedgerError};

#[test]
fn create_find_and_authenticate() {
    let mut bank = Bank::new();
    assert_eq!(bank.account_count(), 0);
    assert!(bank.find_account(1).is_none());

    let a = bank
        .create_account(1, 42, "Ann".to_owned(), "12".to_owned())
        .unwrap();
    assert_eq!(a.id, 1);
    assert_eq!(a.balance, 0);
    assert_eq!(bank.account_count(), 1);

    let found = bank.find_account(1).unwrap();
    assert_eq!(found.name, "Ann");
    assert_eq!(found.phone, "12");

    match bank.authenticate(1, 42) {
        AuthResult::Authenticated(acct) => assert_eq!(acct.id, 1),
        _ => panic!("expected a match"),
    }
    match bank.authenticate(1, 43) {
        AuthResult::Mismatch => (),
        _ => panic!("expected a mismatch"),
    }
    match bank.authenticate(2, 42) {
        AuthResult::NotFound => (),
        _ => panic!("expected not found"),
    }
}

#[test]
fn create_duplicate_id_fails() {
    let mut bank = Bank::new();
    bank.create_account(1, 0, "A".to_owned(), "1".to_owned()).unwrap();
    let second = bank.create_account(1, 9, "B".to_owned(), "2".to_owned());
    match second {
        Err(e) => assert_eq!(e, LedgerError::AlreadyExists),
        Ok(_) => panic!("duplicate id must be refused"),
    }
    // The stored account is the first one.
    let kept = bank.find_account(1).unwrap();
    assert_eq!(kept.name, "A");
    assert_eq!(kept.credential, 0);
}

#[test]
fn adjust_balance_moves_by_signed_delta() {
    let mut bank = Bank::new();
    bank.create_account(1, 0, "A".to_owned(), "1".to_owned()).unwrap();
    let after = bank.adjust_balance(1, 250);
    assert_eq!(after.balance, 250);
    let after = bank.adjust_balance(1, -100);
    assert_eq!(after.balance, 150);
}

#[test]
fn trade_log_is_append_only_with_monotonic_ids() {
    let mut bank = Bank::new();
    bank.append_trade_log(1, "deposit".to_owned(), 10);
    bank.append_trade_log(2, "deposit".to_owned(), 20);
    bank.append_trade_log(1, "withdraw".to_owned(), -5);

    let first = bank.trade_history(1);
    assert_eq!(first.len(), 2);
    assert!(first[0].tid < first[1].tid);
    assert_eq!(first[0].amount, 10);
    assert_eq!(first[1].amount, -5);

    let second = bank.trade_history(2);
    assert_eq!(second.len(), 1);
    assert_eq!(second[0].amount, 20);

    assert!(bank.trade_history(3).is_empty());
}

#[test]
fn history_matches_stringified_sender() {
    let mut bank = Bank::new();
    bank.append_trade_log(7, "5".to_owned(), 30);
    // Account 5 sees the entry through its decimal id; account 6 does not.
    assert_eq!(bank.trade_history(5).len(), 1);
    assert_eq!(bank.trade_history(7).len(), 1);
    assert!(bank.trade_history(6).is_empty());
}
