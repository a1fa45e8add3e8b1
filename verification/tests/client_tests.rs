use bank_protocol::client::{
    parse_server_packet, ClientInputError, ConfigData, Deposit, InfoUi, JoiningRoom, Login,
    Register, ServerEvent, TestState, TradeInfo, Transfer, Withdraw,
};
use bank_protocol::protocol::{
    build_deposit_packet, build_login_packet, build_menu_packet, build_register_packet,
    build_transfer_packet, build_withdraw_packet, User,
};

fn snapshot(balance: u32) -> User {
    User { id: 9, balance, name: "N".to_owned(), phone: "P".to_owned() }
}

#[test]
fn login_form_builds_the_login_packet() {
    let form = Login { id: "1001".to_owned(), password: "pw".to_owned() };
    let packet = form.submit(555).unwrap();
    assert_eq!(packet, build_login_packet(1001, 555));
}

#[test]
fn login_form_rejects_empty_and_non_numeric() {
    let form = Login { id: String::new(), password: "pw".to_owned() };
    assert_eq!(form.submit(0), Err(ClientInputError::EmptyField));
    let form = Login { id: "1".to_owned(), password: String::new() };
    assert_eq!(form.submit(0), Err(ClientInputError::EmptyField));
    let form = Login { id: "12x".to_owned(), password: "pw".to_owned() };
    assert_eq!(form.submit(0), Err(ClientInputError::NotANumber));
}

#[test]
fn login_form_truncates_wide_ids() {
    // The wire field is 32 bits; a wider id is truncated to fit it.
    let form = Login { id: "4294967297".to_owned(), password: "pw".to_owned() };
    let packet = form.submit(0).unwrap();
    assert_eq!(packet, build_login_packet(1, 0));
}

#[test]
fn register_form_builds_the_register_packet() {
    let form = Register {
        id: "1001".to_owned(),
        password: "pw".to_owned(),
        name: "Alice".to_owned(),
        phone: "123".to_owned(),
    };
    let packet = form.submit(555).unwrap();
    assert_eq!(packet, build_register_packet(1001, 555, "Alice", "123"));
}

#[test]
fn deposit_form_checks_amount() {
    let form = Deposit { user: snapshot(0), amount: "500".to_owned() };
    assert_eq!(form.submit().unwrap().unwrap(), build_deposit_packet(500));
    let form = Deposit { user: snapshot(0), amount: "0".to_owned() };
    assert_eq!(form.submit().unwrap(), None);
    let form = Deposit { user: snapshot(0), amount: "x".to_owned() };
    assert_eq!(form.submit(), Err(ClientInputError::NotANumber));
}

#[test]
fn withdraw_form_checks_balance_before_sending() {
    let form = Withdraw { user: snapshot(300), amount: "200".to_owned() };
    assert_eq!(form.submit().unwrap().unwrap(), build_withdraw_packet(200));
    let form = Withdraw { user: snapshot(300), amount: "301".to_owned() };
    assert_eq!(form.submit(), Err(ClientInputError::OverBalance));
    let form = Withdraw { user: snapshot(300), amount: "0".to_owned() };
    assert_eq!(form.submit().unwrap(), None);
    let over = Withdraw::new(snapshot(300));
    assert_eq!(over.amount, "");
}

#[test]
fn transfer_form_builds_the_transfer_packet() {
    let form = Transfer {
        user: snapshot(300),
        target: "1002".to_owned(),
        amount: "100".to_owned(),
    };
    assert_eq!(form.submit().unwrap().unwrap(), build_transfer_packet(1002, 100));
    let form = Transfer { user: snapshot(300), target: "z".to_owned(), amount: "1".to_owned() };
    assert_eq!(form.submit(), Err(ClientInputError::NotANumber));
    let fresh = Transfer::new(snapshot(300));
    assert_eq!(fresh.target, "");
    assert_eq!(fresh.amount, "");
}

#[test]
fn menu_reply_parses_back_to_the_user() {
    let user = User { id: 4, balance: 77, name: "Ann".to_owned(), phone: "55".to_owned() };
    let bytes = build_menu_packet(&user);
    match parse_server_packet(&bytes) {
        ServerEvent::Menu(u) => {
            assert_eq!(u.id, 4);
            assert_eq!(u.balance, 77);
            assert_eq!(u.name, "Ann");
            assert_eq!(u.phone, "55");
        }
        _ => panic!("expected a menu event"),
    }
}

#[test]
fn short_or_unknown_packets() {
    assert!(matches!(parse_server_packet(&vec![1, 2, 3]), ServerEvent::Ignored));
    let mut unknown = Vec::new();
    bank_protocol::ext::add_fixed_header(&mut unknown);
    unknown.extend_from_slice(b"errr");
    match parse_server_packet(&unknown) {
        ServerEvent::Unknown => (),
        _ => panic!("expected an unknown event"),
    }
    let mut truncated = Vec::new();
    bank_protocol::ext::add_fixed_header(&mut truncated);
    truncated.extend_from_slice(b"menu");
    truncated.push(1);
    match parse_server_packet(&truncated) {
        ServerEvent::Malformed => (),
        _ => panic!("expected a malformed event"),
    }
}

#[test]
fn info_ui_sorts_entries_by_time() {
    let entries = vec![
        TradeInfo::new(3, 1, "deposit".to_owned(), 300, 0, 10),
        TradeInfo::new(1, 1, "deposit".to_owned(), 100, 500, 20),
        TradeInfo::new(2, 1, "deposit".to_owned(), 100, 200, 30),
    ];
    let ui = InfoUi::new(snapshot(0), entries);
    let times: Vec<(i64, u32)> =
        ui.entries().iter().map(|e| (e.time_secs, e.time_nanos)).collect();
    assert_eq!(times, vec![(100, 200), (100, 500), (300, 0)]);
}

#[test]
fn config_data_falls_back_to_guest() {
    let named = ConfigData::from_name(Some("pat".to_owned()));
    assert_eq!(named.user_name(), "pat");
    let unnamed = ConfigData::from_name(None);
    assert_eq!(unnamed.user_name(), "guest");
}

#[test]
fn joining_room_presets() {
    let host = JoiningRoom::default();
    assert_eq!(host.addr, "0.0.0.0:5555");
    assert!(!host.is_join);
    let join = JoiningRoom::join();
    assert_eq!(join.addr, "[::1]:1234");
    assert!(join.is_join);
}

#[test]
fn test_state_keeps_sent_lines() {
    let mut state = TestState::default();
    state.send_current();
    assert!(state.messages().is_empty());
    state.set_current("hello".to_owned());
    state.send_current();
    assert_eq!(state.messages().len(), 1);
    assert_eq!(state.messages()[0], "hello");
    assert_eq!(state.current(), "");
}
