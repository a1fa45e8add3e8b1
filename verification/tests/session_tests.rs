use bank_protocol::client::{parse_server_packet, ServerEvent};
use bank_protocol::ledger::Bank;
use bank_protocol::network::NetworkMessage;
use bank_protocol::protocol::{
    build_deposit_packet, build_history_packet, build_login_packet, build_register_packet,
    build_transfer_packet, build_withdraw_packet,
};
use bank_protocol::session::BankConnection;

fn reply_bytes(r: (bool, Option<NetworkMessage>)) -> (bool, Vec<u8>) {
    let (keep, msg) = r;
    match msg {
        Some(NetworkMessage::Rely(v)) => (keep, v),
        Some(NetworkMessage::Once(_)) => panic!("reply should be reliable"),
        None => panic!("expected a reply"),
    }
}

fn menu_balance(bytes: &Vec<u8>) -> u32 {
    match parse_server_packet(bytes) {
        ServerEvent::Menu(u) => u.balance,
        _ => panic!("expected a menu reply"),
    }
}

fn notice_text(bytes: &Vec<u8>) -> String {
    match parse_server_packet(bytes) {
        ServerEvent::Notice(m) => m,
        _ => panic!("expected a msgb reply"),
    }
}

#[test]
fn register_deposit_withdraw_transfer_end_to_end() {
    let mut bank = Bank::new();
    let mut conn = BankConnection::new();

    // Register id=1001, hash=555, name=Alice, phone=123: menu with balance 0.
    let (keep, reply) = reply_bytes(conn.handle(
        &mut bank,
        &build_register_packet(1001, 555, "Alice", "123"),
    ));
    assert!(keep);
    match parse_server_packet(&reply) {
        ServerEvent::Menu(u) => {
            assert_eq!(u.id, 1001);
            assert_eq!(u.balance, 0);
            assert_eq!(u.name, "Alice");
            assert_eq!(u.phone, "123");
        }
        _ => panic!("expected a menu reply"),
    }

    // Deposit 500: menu balance 500, one log entry (1001, "deposit", +500).
    let (keep, reply) = reply_bytes(conn.handle(&mut bank, &build_deposit_packet(500)));
    assert!(keep);
    assert_eq!(menu_balance(&reply), 500);
    let hist = bank.trade_history(1001);
    assert_eq!(hist.len(), 1);
    assert_eq!(hist[0].receiver, 1001);
    assert_eq!(hist[0].sender, "deposit");
    assert_eq!(hist[0].amount, 500);

    // Withdraw 200: menu balance 300, entry (1001, "withdraw", -200).
    let (keep, reply) = reply_bytes(conn.handle(&mut bank, &build_withdraw_packet(200)));
    assert!(keep);
    assert_eq!(menu_balance(&reply), 300);
    let hist = bank.trade_history(1001);
    assert_eq!(hist.len(), 2);
    assert_eq!(hist[1].receiver, 1001);
    assert_eq!(hist[1].sender, "withdraw");
    assert_eq!(hist[1].amount, -200);

    // A second account 1002 with balance 0.
    let mut conn2 = BankConnection::new();
    let (keep, reply) = reply_bytes(conn2.handle(
        &mut bank,
        &build_register_packet(1002, 777, "Bob", "456"),
    ));
    assert!(keep);
    assert_eq!(menu_balance(&reply), 0);

    // Transfer 100 from 1001 to 1002: sender menu balance 200; target
    // balance 100 with a credit entry (1002, "1001", +100).
    let (keep, reply) = reply_bytes(conn.handle(&mut bank, &build_transfer_packet(1002, 100)));
    assert!(keep);
    assert_eq!(menu_balance(&reply), 200);
    let target = bank.find_account(1002).unwrap();
    assert_eq!(target.balance, 100);
    let hist = bank.trade_history(1002);
    assert_eq!(hist.len(), 1);
    assert_eq!(hist[0].receiver, 1002);
    assert_eq!(hist[0].sender, "1001");
    assert_eq!(hist[0].amount, 100);

    // The transfer entry also appears in the sender's history, through the
    // stringified-sender convention.
    let hist = bank.trade_history(1001);
    assert_eq!(hist.len(), 3);
    assert_eq!(hist[2].receiver, 1002);
    assert_eq!(hist[2].sender, "1001");
}

#[test]
fn login_wrong_credential_is_recoverable() {
    let mut bank = Bank::new();
    let mut conn = BankConnection::new();
    reply_bytes(conn.handle(&mut bank, &build_register_packet(7, 42, "Ann", "1")));

    // Wrong credential on a fresh connection: a notice, no transition.
    let mut conn2 = BankConnection::new();
    let (keep, reply) = reply_bytes(conn2.handle(&mut bank, &build_login_packet(7, 43)));
    assert!(keep);
    assert_eq!(notice_text(&reply), "wrong account id or password");

    // The same connection can still log in correctly afterwards.
    let (keep, reply) = reply_bytes(conn2.handle(&mut bank, &build_login_packet(7, 42)));
    assert!(keep);
    assert_eq!(menu_balance(&reply), 0);
}

#[test]
fn login_unknown_account_is_recoverable() {
    let mut bank = Bank::new();
    let mut conn = BankConnection::new();
    let (keep, reply) = reply_bytes(conn.handle(&mut bank, &build_login_packet(9, 1)));
    assert!(keep);
    assert_eq!(notice_text(&reply), "wrong account id or password");
}

#[test]
fn register_twice_rejected_and_first_unchanged() {
    let mut bank = Bank::new();
    let mut conn = BankConnection::new();
    reply_bytes(conn.handle(&mut bank, &build_register_packet(5, 11, "First", "100")));
    reply_bytes(conn.handle(&mut bank, &build_deposit_packet(40)));

    let mut conn2 = BankConnection::new();
    let (keep, reply) = reply_bytes(conn2.handle(
        &mut bank,
        &build_register_packet(5, 99, "Second", "200"),
    ));
    assert!(keep);
    assert_eq!(notice_text(&reply), "account id already exists");

    let first = bank.find_account(5).unwrap();
    assert_eq!(first.name, "First");
    assert_eq!(first.phone, "100");
    assert_eq!(first.balance, 40);
    assert_eq!(first.credential, 11);
}

#[test]
fn register_over_length_fields_rejected() {
    let mut bank = Bank::new();
    let mut conn = BankConnection::new();
    let long_name = "n".repeat(61);
    let (keep, reply) = reply_bytes(conn.handle(
        &mut bank,
        &build_register_packet(5, 11, &long_name, "1"),
    ));
    assert!(keep);
    assert_eq!(notice_text(&reply), "name or phone number too long");
    assert!(bank.find_account(5).is_none());
}

#[test]
fn deposit_over_cap_rejected_balance_unchanged() {
    let mut bank = Bank::new();
    let mut conn = BankConnection::new();
    reply_bytes(conn.handle(&mut bank, &build_register_packet(1, 0, "A", "1")));
    reply_bytes(conn.handle(&mut bank, &build_deposit_packet(9000)));

    let (keep, reply) = reply_bytes(conn.handle(&mut bank, &build_deposit_packet(1001)));
    assert!(keep);
    assert_eq!(notice_text(&reply), "deposit limit exceeded");
    assert_eq!(bank.find_account(1).unwrap().balance, 9000);
    assert_eq!(bank.trade_history(1).len(), 1);

    // Exactly reaching the cap is still accepted.
    let (_, reply) = reply_bytes(conn.handle(&mut bank, &build_deposit_packet(1000)));
    assert_eq!(menu_balance(&reply), 10000);
}

#[test]
fn withdraw_over_balance_rejected_balance_unchanged() {
    let mut bank = Bank::new();
    let mut conn = BankConnection::new();
    reply_bytes(conn.handle(&mut bank, &build_register_packet(1, 0, "A", "1")));
    reply_bytes(conn.handle(&mut bank, &build_deposit_packet(300)));

    let (keep, reply) = reply_bytes(conn.handle(&mut bank, &build_withdraw_packet(301)));
    assert!(keep);
    assert_eq!(notice_text(&reply), "insufficient balance");
    assert_eq!(bank.find_account(1).unwrap().balance, 300);
}

#[test]
fn transfer_over_target_cap_rejected_neither_balance_changes() {
    let mut bank = Bank::new();
    let mut sender = BankConnection::new();
    let mut receiver = BankConnection::new();
    reply_bytes(sender.handle(&mut bank, &build_register_packet(1, 0, "A", "1")));
    reply_bytes(sender.handle(&mut bank, &build_deposit_packet(500)));
    reply_bytes(receiver.handle(&mut bank, &build_register_packet(2, 0, "B", "2")));
    reply_bytes(receiver.handle(&mut bank, &build_deposit_packet(9900)));

    let (keep, reply) = reply_bytes(sender.handle(&mut bank, &build_transfer_packet(2, 200)));
    assert!(keep);
    assert_eq!(notice_text(&reply), "target deposit limit reached");
    assert_eq!(bank.find_account(1).unwrap().balance, 500);
    assert_eq!(bank.find_account(2).unwrap().balance, 9900);
}

#[test]
fn transfer_to_missing_target_rejected() {
    let mut bank = Bank::new();
    let mut conn = BankConnection::new();
    reply_bytes(conn.handle(&mut bank, &build_register_packet(1, 0, "A", "1")));
    reply_bytes(conn.handle(&mut bank, &build_deposit_packet(500)));

    let (keep, reply) = reply_bytes(conn.handle(&mut bank, &build_transfer_packet(99, 100)));
    assert!(keep);
    assert_eq!(notice_text(&reply), "target account not found");
    assert_eq!(bank.find_account(1).unwrap().balance, 500);
}

#[test]
fn transfer_insufficient_funds_rejected() {
    let mut bank = Bank::new();
    let mut sender = BankConnection::new();
    let mut receiver = BankConnection::new();
    reply_bytes(sender.handle(&mut bank, &build_register_packet(1, 0, "A", "1")));
    reply_bytes(sender.handle(&mut bank, &build_deposit_packet(50)));
    reply_bytes(receiver.handle(&mut bank, &build_register_packet(2, 0, "B", "2")));

    let (keep, reply) = reply_bytes(sender.handle(&mut bank, &build_transfer_packet(2, 51)));
    assert!(keep);
    assert_eq!(notice_text(&reply), "insufficient balance");
    assert_eq!(bank.find_account(1).unwrap().balance, 50);
    assert_eq!(bank.find_account(2).unwrap().balance, 0);
}

#[test]
fn history_lists_only_matching_entries() {
    let mut bank = Bank::new();
    let mut a = BankConnection::new();
    let mut b = BankConnection::new();
    reply_bytes(a.handle(&mut bank, &build_register_packet(1, 0, "A", "1")));
    reply_bytes(b.handle(&mut bank, &build_register_packet(2, 0, "B", "2")));
    reply_bytes(a.handle(&mut bank, &build_deposit_packet(100)));
    reply_bytes(b.handle(&mut bank, &build_deposit_packet(200)));
    reply_bytes(a.handle(&mut bank, &build_transfer_packet(2, 30)));

    // Account 1: its own deposit, and the transfer via the stringified
    // sender "1"; not account 2's deposit.
    let hist = bank.trade_history(1);
    assert_eq!(hist.len(), 2);
    assert_eq!((hist[0].receiver, hist[0].amount), (1, 100));
    assert_eq!((hist[1].receiver, hist[1].sender.as_str(), hist[1].amount), (2, "1", 30));

    // Account 2: its own deposit and the received transfer.
    let hist = bank.trade_history(2);
    assert_eq!(hist.len(), 2);
    assert_eq!((hist[0].receiver, hist[0].amount), (2, 200));
    assert_eq!((hist[1].receiver, hist[1].amount), (2, 30));

    // The history reply packet parses back to the same entries.
    let (_, reply) = reply_bytes(a.handle(&mut bank, &build_history_packet()));
    match parse_server_packet(&reply) {
        ServerEvent::Info(u, entries) => {
            assert_eq!(u.id, 1);
            assert_eq!(u.balance, 70);
            assert_eq!(entries.len(), 2);
            assert_eq!(entries[0].amount, 100);
            assert_eq!(entries[1].amount, 30);
            assert_eq!(entries[1].sender, "1");
        }
        _ => panic!("expected an info reply"),
    }
}

#[test]
fn self_transfer_keeps_balance() {
    let mut bank = Bank::new();
    let mut conn = BankConnection::new();
    reply_bytes(conn.handle(&mut bank, &build_register_packet(1, 0, "A", "1")));
    reply_bytes(conn.handle(&mut bank, &build_deposit_packet(500)));

    let (keep, reply) = reply_bytes(conn.handle(&mut bank, &build_transfer_packet(1, 200)));
    assert!(keep);
    assert_eq!(menu_balance(&reply), 500);
    assert_eq!(bank.find_account(1).unwrap().balance, 500);
    // The credit leg is still logged.
    let hist = bank.trade_history(1);
    assert_eq!(hist.len(), 2);
    assert_eq!((hist[1].receiver, hist[1].sender.as_str(), hist[1].amount), (1, "1", 200));
}

#[test]
fn wrong_body_length_is_fatal() {
    let mut bank = Bank::new();
    let mut conn = BankConnection::new();
    reply_bytes(conn.handle(&mut bank, &build_register_packet(1, 0, "A", "1")));

    // Opcode 0 with three trailing bytes instead of four.
    let mut bad = Vec::new();
    bank_protocol::ext::add_fixed_header(&mut bad);
    bad.push(0);
    bad.push(1);
    bad.push(2);
    bad.push(3);
    let (keep, reply) = reply_bytes(conn.handle(&mut bank, &bad));
    assert!(!keep);
    assert_eq!(&reply[8..12], b"errr");
    assert_eq!(bank.find_account(1).unwrap().balance, 0);
}

#[test]
fn unknown_opcode_is_fatal() {
    let mut bank = Bank::new();
    let mut conn = BankConnection::new();
    reply_bytes(conn.handle(&mut bank, &build_register_packet(1, 0, "A", "1")));

    let mut bad = Vec::new();
    bank_protocol::ext::add_fixed_header(&mut bad);
    bad.push(9);
    let (keep, reply) = reply_bytes(conn.handle(&mut bank, &bad));
    assert!(!keep);
    assert_eq!(&reply[8..12], b"errr");
}

#[test]
fn bad_magic_or_version_closes_silently() {
    let mut bank = Bank::new();
    let mut conn = BankConnection::new();
    let (keep, msg) = conn.handle(&mut bank, &b"xxxxyyyyzzzz".to_vec());
    assert!(!keep);
    assert!(msg.is_none());

    let mut wrong_version = Vec::new();
    wrong_version.extend_from_slice(b"rPtm");
    wrong_version.extend_from_slice(&[0, 0, 0, 1]);
    wrong_version.extend_from_slice(&[0, 0, 0, 0]);
    let mut conn = BankConnection::new();
    let (keep, msg) = conn.handle(&mut bank, &wrong_version);
    assert!(!keep);
    assert!(msg.is_none());
}

#[test]
fn short_login_body_is_fatal() {
    let mut bank = Bank::new();
    let mut conn = BankConnection::new();
    let mut bad = Vec::new();
    bank_protocol::ext::add_fixed_header(&mut bad);
    bad.push(1);
    bad.push(2);
    let (keep, reply) = reply_bytes(conn.handle(&mut bank, &bad));
    assert!(!keep);
    assert_eq!(&reply[8..12], b"errr");
}

#[test]
fn malformed_register_string_is_fatal() {
    let mut bank = Bank::new();
    let mut conn = BankConnection::new();
    let mut bad = Vec::new();
    bank_protocol::ext::add_fixed_header(&mut bad);
    bad.extend_from_slice(&[0, 0, 0, 1]); // id
    bad.extend_from_slice(&[0, 0, 0, 2]); // credential
    bad.extend_from_slice(&[0, 9, b'a']); // declares 9 bytes, has 1
    let (keep, reply) = reply_bytes(conn.handle(&mut bank, &bad));
    assert!(!keep);
    assert_eq!(&reply[8..12], b"errr");
    assert!(bank.find_account(1).is_none());
}
