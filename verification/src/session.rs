//! The per-session state machine.
//!
//! A session starts unauthenticated, moves to authenticated exactly once on
//! a successful login or registration, and never moves back.  Each inbound
//! packet yields at most one reply; recoverable user errors become `msgb`
//! notices and leave every state untouched, protocol faults become `errr`
//! notices and close the connection.  The whole step, state table and all,
//! is the spec function [`spec_step`]; the handlers are proved against it.

use vstd::prelude::*;

verus! {

use crate::codec::{
    be32_val,
    u32_as_i32,
    read_u32,
    wire_to_i32,
    u32_to_dec_string,
    parse_string_at,
    dec_chars,
    lemma_encode_utf8_len,
    lemma_dec_chars_len_u32,
    CodecError,
};
use vstd::utf8::encode_utf8;
use crate::ext::PacketReadExt;
use crate::ledger::{
    Bank,
    BankView,
    AccountView,
    has_acct,
    acct_of,
    unique_ids,
    accounts_ok,
    lemma_acct_at,
    spec_adjust,
    logs_appended,
    next_tid_bump,
    lemma_adjust_effect,
    lemma_acct_of_ok,
    lemma_history_membership,
    history_of,
    AuthResult,
    BALANCE_CAP,
};
use crate::protocol::{
    User,
    UserView,
    user_of_acct,
    user_fits,
    spec_valid_frame,
    frame_body,
    menu_packet_bytes,
    msgb_packet_bytes,
    errr_packet_bytes,
    info_packet_bytes,
    build_menu_packet,
    build_msgb_packet,
    build_errr_packet,
    build_info_packet,
    check_frame,
};
use crate::network::NetworkMessage;

/// A recoverable user error: the peer is notified and the session and the
/// store stay as they were.
#[derive(Clone, Copy, Debug)]
pub struct UserInputError {
    pub msg: &'static str,
}

impl UserInputError {
    /// Wraps a user-facing notice.
    pub fn new(msg: &'static str) -> (r: Self)
        ensures
            r.msg == msg,
    {
        UserInputError { msg }
    }
}

/// How handling one packet body can fail.
pub enum HandleError {
    /// Recoverable: reported via `msgb`, the connection stays open.
    UserInput(UserInputError),
    /// Fatal: reported via `errr`, then the connection closes.
    Fatal(&'static str),
}

/// The authentication state of a session.
pub ghost enum SessionView {
    /// No account bound yet.
    Unauthenticated,
    /// An account is bound; the snapshot is shown to the peer.
    Authenticated(UserView),
}

/// How one step of the state machine ends.
pub ghost enum StepKind {
    /// The request was carried out.
    Accepted,
    /// A recoverable user error; nothing changed.
    Rejected,
    /// A protocol fault; the connection closes.
    Fatal,
}

/// The one trade-log entry a step appends, up to its timestamp.
pub ghost struct LogAppend {
    pub receiver: u32,
    pub sender: Seq<char>,
    pub amount: i32,
}

/// Everything one step of the state machine does.
pub ghost struct StepEffect {
    pub kind: StepKind,
    /// Whether the connection stays open.
    pub keep: bool,
    /// The bytes of the one reliable reply, if any.
    pub reply: Option<Seq<u8>>,
    /// The accounts after the step.
    pub accounts: Seq<AccountView>,
    /// The trade-log entry appended by the step, if any.
    pub append: Option<LogAppend>,
    /// The session state after the step.
    pub state: SessionView,
}

/// A step that rejects the request with a `msgb` notice and changes nothing.
pub open spec fn step_rejected(m: Seq<char>, accounts: Seq<AccountView>, state: SessionView) -> StepEffect {
    StepEffect {
        kind: StepKind::Rejected,
        keep: true,
        reply: Some(msgb_packet_bytes(m)),
        accounts,
        append: None,
        state,
    }
}

/// A step that reports a protocol fault with an `errr` notice and closes.
pub open spec fn step_fatal(m: Seq<char>, accounts: Seq<AccountView>, state: SessionView) -> StepEffect {
    StepEffect {
        kind: StepKind::Fatal,
        keep: false,
        reply: Some(errr_packet_bytes(m)),
        accounts,
        append: None,
        state,
    }
}

/// The account id of a login or register body.
pub open spec fn login_id(b: Seq<u8>) -> u32 {
    be32_val(b.subrange(0, 4))
}

/// The credential of a login or register body.
pub open spec fn login_credential(b: Seq<u8>) -> i32 {
    u32_as_i32(be32_val(b.subrange(4, 8)))
}

/// The name and phone strings of a register body, or the parse error the
/// bytes force.
pub open spec fn register_fields(b: Seq<u8>) -> Result<(Seq<char>, Seq<char>), CodecError> {
    match parse_string_at(b, 8) {
        Ok(name) => match parse_string_at(b, name.1) {
            Ok(phone) => Ok((name.0, phone.0)),
            Err(e) => Err(e),
        },
        Err(e) => Err(e),
    }
}

/// The amount of a deposit or withdraw body.
pub open spec fn body_amount(b: Seq<u8>) -> u32 {
    be32_val(b.subrange(1, 5))
}

/// The target account of a transfer body.
pub open spec fn transfer_target(b: Seq<u8>) -> u32 {
    be32_val(b.subrange(1, 5))
}

/// The amount of a transfer body.
pub open spec fn transfer_amount(b: Seq<u8>) -> u32 {
    be32_val(b.subrange(5, 9))
}

/// What an unauthenticated session does with a body: a login of exactly
/// eight bytes, a registration of more, anything else a fault.
#[verifier::opaque]
pub open spec fn spec_step_login(bank: BankView, b: Seq<u8>) -> StepEffect {
    if b.len() == 8 {
        let id = login_id(b);
        if has_acct(bank.accounts, id) && acct_of(bank.accounts, id).credential
            == login_credential(b) {
            let u = user_of_acct(acct_of(bank.accounts, id));
            StepEffect {
                kind: StepKind::Accepted,
                keep: true,
                reply: Some(menu_packet_bytes(u)),
                accounts: bank.accounts,
                append: None,
                state: SessionView::Authenticated(u),
            }
        } else {
            step_rejected(
                "wrong account id or password"@,
                bank.accounts,
                SessionView::Unauthenticated,
            )
        }
    } else if b.len() > 8 {
        match register_fields(b) {
            Err(_) => step_fatal("malformed string"@, bank.accounts, SessionView::Unauthenticated),
            Ok(fields) => {
                if encode_utf8(fields.0).len() > 60 || encode_utf8(fields.1).len() > 20 {
                    step_rejected(
                        "name or phone number too long"@,
                        bank.accounts,
                        SessionView::Unauthenticated,
                    )
                } else if has_acct(bank.accounts, login_id(b)) {
                    step_rejected(
                        "account id already exists"@,
                        bank.accounts,
                        SessionView::Unauthenticated,
                    )
                } else {
                    let u = UserView {
                        id: login_id(b),
                        balance: 0,
                        name: fields.0,
                        phone: fields.1,
                    };
                    StepEffect {
                        kind: StepKind::Accepted,
                        keep: true,
                        reply: Some(menu_packet_bytes(u)),
                        accounts: bank.accounts.push(
                            AccountView {
                                id: u.id,
                                credential: login_credential(b),
                                balance: 0,
                                name: u.name,
                                phone: u.phone,
                            },
                        ),
                        append: None,
                        state: SessionView::Authenticated(u),
                    }
                }
            },
        }
    } else {
        step_fatal("wrong body length"@, bank.accounts, SessionView::Unauthenticated)
    }
}

/// What an authenticated session does with a body: the four opcodes with
/// their exact lengths; anything else a fault.  Every balance check reads
/// the store, not the snapshot.
#[verifier::opaque]
pub open spec fn spec_step_logged(u: UserView, bank: BankView, b: Seq<u8>) -> StepEffect {
    if b.len() == 5 && b[0] == 0 {
        let amt = body_amount(b);
        if acct_of(bank.accounts, u.id).balance + amt <= BALANCE_CAP {
            let accounts2 = spec_adjust(bank.accounts, u.id, amt as int);
            let nu = user_of_acct(acct_of(accounts2, u.id));
            StepEffect {
                kind: StepKind::Accepted,
                keep: true,
                reply: Some(menu_packet_bytes(nu)),
                accounts: accounts2,
                append: Some(LogAppend { receiver: u.id, sender: "deposit"@, amount: amt as i32 }),
                state: SessionView::Authenticated(nu),
            }
        } else {
            step_rejected("deposit limit exceeded"@, bank.accounts, SessionView::Authenticated(u))
        }
    } else if b.len() == 5 && b[0] == 1 {
        let amt = body_amount(b);
        if acct_of(bank.accounts, u.id).balance >= amt {
            let accounts2 = spec_adjust(bank.accounts, u.id, -(amt as int));
            let nu = user_of_acct(acct_of(accounts2, u.id));
            StepEffect {
                kind: StepKind::Accepted,
                keep: true,
                reply: Some(menu_packet_bytes(nu)),
                accounts: accounts2,
                append: Some(
                    LogAppend {
                        receiver: u.id,
                        sender: "withdraw"@,
                        amount: (-(amt as int)) as i32,
                    },
                ),
                state: SessionView::Authenticated(nu),
            }
        } else {
            step_rejected("insufficient balance"@, bank.accounts, SessionView::Authenticated(u))
        }
    } else if b.len() == 9 && b[0] == 2 {
        let target = transfer_target(b);
        let amt = transfer_amount(b);
        if !has_acct(bank.accounts, target) {
            step_rejected("target account not found"@, bank.accounts, SessionView::Authenticated(u))
        } else if acct_of(bank.accounts, target).balance + amt > BALANCE_CAP {
            step_rejected(
                "target deposit limit reached"@,
                bank.accounts,
                SessionView::Authenticated(u),
            )
        } else if acct_of(bank.accounts, u.id).balance < amt {
            step_rejected("insufficient balance"@, bank.accounts, SessionView::Authenticated(u))
        } else {
            let accounts2 = spec_adjust(
                spec_adjust(bank.accounts, target, amt as int),
                u.id,
                -(amt as int),
            );
            let nu = user_of_acct(acct_of(accounts2, u.id));
            StepEffect {
                kind: StepKind::Accepted,
                keep: true,
                reply: Some(menu_packet_bytes(nu)),
                accounts: accounts2,
                append: Some(
                    LogAppend {
                        receiver: target,
                        sender: dec_chars(u.id as nat),
                        amount: amt as i32,
                    },
                ),
                state: SessionView::Authenticated(nu),
            }
        }
    } else if b.len() == 1 && b[0] == 3 {
        StepEffect {
            kind: StepKind::Accepted,
            keep: true,
            reply: Some(info_packet_bytes(u, history_of(bank.logs, u.id))),
            accounts: bank.accounts,
            append: None,
            state: SessionView::Authenticated(u),
        }
    } else {
        step_fatal("wrong packet type or length"@, bank.accounts, SessionView::Authenticated(u))
    }
}

/// What a whole connection does with a datagram: a bad frame closes the
/// connection silently; a good frame is dispatched on the session state.
pub open spec fn spec_step(state: SessionView, bank: BankView, d: Seq<u8>) -> StepEffect {
    if !spec_valid_frame(d) {
        StepEffect {
            kind: StepKind::Fatal,
            keep: false,
            reply: None,
            accounts: bank.accounts,
            append: None,
            state,
        }
    } else {
        match state {
            SessionView::Unauthenticated => spec_step_login(bank, frame_body(d)),
            SessionView::Authenticated(u) => spec_step_logged(u, bank, frame_body(d)),
        }
    }
}

/// Handles bodies of unauthenticated sessions: login and registration.
#[derive(Default)]
pub struct HandleLogin {}

/// Handles bodies of authenticated sessions, holding the bound snapshot.
pub struct LoggedHandler {
    user: User,
}

impl View for LoggedHandler {
    type V = UserView;

    closed spec fn view(&self) -> UserView {
        self.user@
    }
}

impl LoggedHandler {
    /// The snapshot fits the wire: the same bounds the store keeps.
    pub open spec fn inv(&self) -> bool {
        user_fits(self@)
    }

    /// Binds an account snapshot.
    pub fn new(user: User) -> (r: Self)
        ensures
            r@ == user@,
    {
        LoggedHandler { user }
    }

    /// The bound snapshot.
    pub fn user(&self) -> (r: &User)
        ensures
            r@ == self@,
    {
        &self.user
    }
}


/// Every user-facing message of the state machine is short.
proof fn lemma_message_lengths()
    ensures
        "wrong account id or password"@.len() <= 64,
        "name or phone number too long"@.len() <= 64,
        "account id already exists"@.len() <= 64,
        "malformed string"@.len() <= 64,
        "wrong body length"@.len() <= 64,
        "deposit limit exceeded"@.len() <= 64,
        "insufficient balance"@.len() <= 64,
        "target account not found"@.len() <= 64,
        "target deposit limit reached"@.len() <= 64,
        "wrong packet type or length"@.len() <= 64,
        "deposit"@.len() <= 16,
        "withdraw"@.len() <= 16,
{
    reveal_strlit("wrong account id or password");
    reveal_strlit("name or phone number too long");
    reveal_strlit("account id already exists");
    reveal_strlit("malformed string");
    reveal_strlit("wrong body length");
    reveal_strlit("deposit limit exceeded");
    reveal_strlit("insufficient balance");
    reveal_strlit("target account not found");
    reveal_strlit("target deposit limit reached");
    reveal_strlit("wrong packet type or length");
    reveal_strlit("deposit");
    reveal_strlit("withdraw");
}

impl HandleLogin {
    /// The login path: the body is exactly eight bytes.
    fn handle_login(&self, bank: &mut Bank, body: &Vec<u8>) -> (r: Result<
        (LoggedHandler, Vec<u8>),
        HandleError,
    >)
        requires
            old(bank).wf(),
            body@.len() == 8,
        ensures
            final(bank).wf(),
            final(bank)@ == old(bank)@,
            ({
                let eff = spec_step_login(old(bank)@, body@);
                &&& (r is Ok <==> eff.kind is Accepted)
                &&& (eff.kind is Rejected ==> r matches Err(HandleError::UserInput(_)))
                &&& (r matches Err(HandleError::UserInput(m)) ==> eff.kind is Rejected
                    && eff.reply == Some(msgb_packet_bytes(m.msg@)) && m.msg@.len() <= 64)
                &&& (r matches Err(HandleError::Fatal(m)) ==> eff.kind is Fatal && eff.reply
                    == Some(errr_packet_bytes(m@)) && m@.len() <= 64)
                &&& (r matches Ok(p) ==> p.1@ == eff.reply.unwrap() && eff.state
                    == SessionView::Authenticated(p.0@) && p.0.inv() && has_acct(
                    final(bank)@.accounts,
                    p.0@.id,
                ))
                &&& final(bank)@.accounts == eff.accounts
                &&& final(bank)@.logs == old(bank)@.logs
                &&& final(bank)@.next_tid == old(bank)@.next_tid
                &&& (r is Ok ==> eff.reply is Some)
                &&& (eff.keep <==> !(r matches Err(HandleError::Fatal(_))))
                &&& (r is Err ==> eff.state == SessionView::Unauthenticated)
                &&& eff.append is None
            }),
    {
        proof {
            reveal(spec_step_login);
        }
        let id = read_u32(body, 0);
        let credential = wire_to_i32(read_u32(body, 4));
        match bank.authenticate(id, credential) {
            AuthResult::Authenticated(a) => {
                proof {
                    lemma_acct_of_ok(bank@.accounts, id);
                }
                let user = User { id: a.id, balance: a.balance, name: a.name, phone: a.phone };
                let resp = build_menu_packet(&user);
                Ok((LoggedHandler::new(user), resp))
            },
            AuthResult::NotFound => {
                proof {
                    lemma_message_lengths();
                }
                Err(HandleError::UserInput(UserInputError::new("wrong account id or password")))
            },
            AuthResult::Mismatch => {
                proof {
                    lemma_message_lengths();
                }
                Err(HandleError::UserInput(UserInputError::new("wrong account id or password")))
            },
        }
    }

    /// The registration path: the body is longer than eight bytes.
    #[verifier::rlimit(100)]
    fn handle_register(&self, bank: &mut Bank, body: &Vec<u8>) -> (r: Result<
        (LoggedHandler, Vec<u8>),
        HandleError,
    >)
        requires
            old(bank).wf(),
            body@.len() > 8,
        ensures
            final(bank).wf(),
            ({
                let eff = spec_step_login(old(bank)@, body@);
                &&& (r is Ok <==> eff.kind is Accepted)
                &&& (eff.kind is Rejected ==> r matches Err(HandleError::UserInput(_)))
                &&& (r matches Err(HandleError::UserInput(m)) ==> eff.kind is Rejected
                    && eff.reply == Some(msgb_packet_bytes(m.msg@)) && m.msg@.len() <= 64)
                &&& (r matches Err(HandleError::Fatal(m)) ==> eff.kind is Fatal && eff.reply
                    == Some(errr_packet_bytes(m@)) && m@.len() <= 64)
                &&& (r matches Ok(p) ==> p.1@ == eff.reply.unwrap() && eff.state
                    == SessionView::Authenticated(p.0@) && p.0.inv() && has_acct(
                    final(bank)@.accounts,
                    p.0@.id,
                ))
                &&& final(bank)@.accounts == eff.accounts
                &&& final(bank)@.logs == old(bank)@.logs
                &&& final(bank)@.next_tid == old(bank)@.next_tid
                &&& (r is Ok ==> eff.reply is Some)
                &&& (eff.keep <==> !(r matches Err(HandleError::Fatal(_))))
                &&& (r is Err ==> eff.state == SessionView::Unauthenticated)
                &&& eff.append is None
            }),
    {
        let ghost eff = spec_step_login(old(bank)@, body@);
        let id = read_u32(body, 0);
        let credential = wire_to_i32(read_u32(body, 4));
        let mut pos: usize = 8;
        let name = match body.read_packet_string(&mut pos) {
            Ok(s) => s,
            Err(_) => {
                proof {
                    lemma_message_lengths();
                    assert(eff == step_fatal(
                        "malformed string"@,
                        old(bank)@.accounts,
                        SessionView::Unauthenticated,
                    )) by {
                        reveal(spec_step_login);
                        assert(register_fields(body@) is Err);
                    }
                }
                return Err(HandleError::Fatal("malformed string"));
            },
        };
        let phone = match body.read_packet_string(&mut pos) {
            Ok(s) => s,
            Err(_) => {
                proof {
                    lemma_message_lengths();
                    assert(eff == step_fatal(
                        "malformed string"@,
                        old(bank)@.accounts,
                        SessionView::Unauthenticated,
                    )) by {
                        reveal(spec_step_login);
                        assert(register_fields(body@) is Err);
                    }
                }
                return Err(HandleError::Fatal("malformed string"));
            },
        };
        let ghost nv = name@;
        let ghost pv = phone@;
        proof {
            assert(register_fields(body@) == Ok::<(Seq<char>, Seq<char>), CodecError>((nv, pv)));
        }
        if name.as_str().as_bytes().len() > 60 || phone.as_str().as_bytes().len() > 20 {
            proof {
                lemma_message_lengths();
                assert(eff == step_rejected(
                    "name or phone number too long"@,
                    old(bank)@.accounts,
                    SessionView::Unauthenticated,
                )) by {
                    reveal(spec_step_login);
                }
            }
            return Err(HandleError::UserInput(UserInputError::new("name or phone number too long")));
        }
        proof {
            lemma_encode_utf8_len(nv);
            lemma_encode_utf8_len(pv);
        }
        let user = User { id, balance: 0, name: name.clone(), phone: phone.clone() };
        match bank.create_account(id, credential, name, phone) {
            Err(_) => {
                proof {
                    lemma_message_lengths();
                    assert(eff == step_rejected(
                        "account id already exists"@,
                        old(bank)@.accounts,
                        SessionView::Unauthenticated,
                    )) by {
                        reveal(spec_step_login);
                    }
                }
                Err(HandleError::UserInput(UserInputError::new("account id already exists")))
            },
            Ok(_) => {
                proof {
                    assert(eff == (StepEffect {
                        kind: StepKind::Accepted,
                        keep: true,
                        reply: Some(menu_packet_bytes(user@)),
                        accounts: old(bank)@.accounts.push(
                            AccountView { id, credential, balance: 0, name: nv, phone: pv },
                        ),
                        append: None,
                        state: SessionView::Authenticated(user@),
                    })) by {
                        reveal(spec_step_login);
                    }
                    assert(bank@.accounts.last().id == id);
                    assert(has_acct(bank@.accounts, id));
                }
                let resp = build_menu_packet(&user);
                Ok((LoggedHandler::new(user), resp))
            },
        }
    }

    /// Interprets one body of an unauthenticated session, exactly as
    /// [`spec_step_login`] says: a matching login or a fresh registration
    /// authenticates the session and yields the `menu` reply; bad
    /// credentials, over-length fields and duplicate ids are recoverable;
    /// a bad length or a malformed string is fatal.
    pub fn handle(&self, bank: &mut Bank, body: &Vec<u8>) -> (r: Result<
        (LoggedHandler, Vec<u8>),
        HandleError,
    >)
        requires
            old(bank).wf(),
        ensures
            final(bank).wf(),
            ({
                let eff = spec_step_login(old(bank)@, body@);
                &&& (r is Ok <==> eff.kind is Accepted)
                &&& (eff.kind is Rejected ==> r matches Err(HandleError::UserInput(_)))
                &&& (r matches Err(HandleError::UserInput(m)) ==> eff.kind is Rejected
                    && eff.reply == Some(msgb_packet_bytes(m.msg@)) && m.msg@.len() <= 64)
                &&& (r matches Err(HandleError::Fatal(m)) ==> eff.kind is Fatal && eff.reply
                    == Some(errr_packet_bytes(m@)) && m@.len() <= 64)
                &&& (r matches Ok(p) ==> p.1@ == eff.reply.unwrap() && eff.state
                    == SessionView::Authenticated(p.0@) && p.0.inv() && has_acct(
                    final(bank)@.accounts,
                    p.0@.id,
                ))
                &&& final(bank)@.accounts == eff.accounts
                &&& final(bank)@.logs == old(bank)@.logs
                &&& final(bank)@.next_tid == old(bank)@.next_tid
                &&& (r is Ok ==> eff.reply is Some)
                &&& (eff.keep <==> !(r matches Err(HandleError::Fatal(_))))
                &&& (r is Err ==> eff.state == SessionView::Unauthenticated)
                &&& eff.append is None
            }),
    {
        if body.len() == 8 {
            self.handle_login(bank, body)
        } else if body.len() > 8 {
            self.handle_register(bank, body)
        } else {
            proof {
                lemma_message_lengths();
                assert(spec_step_login(old(bank)@, body@) == step_fatal(
                    "wrong body length"@,
                    old(bank)@.accounts,
                    SessionView::Unauthenticated,
                )) by {
                    reveal(spec_step_login);
                }
            }
            Err(HandleError::Fatal("wrong body length"))
        }
    }
}

impl LoggedHandler {
    /// Interprets one body of an authenticated session, exactly as
    /// [`spec_step_logged`] says: deposits, withdrawals and transfers are
    /// validated against the balance now in the store and applied together
    /// with their trade-log entry in one step; the history query renders
    /// the account's entries; a cap or floor violation or a missing
    /// transfer target is recoverable; anything else is fatal.
    pub fn handle(&mut self, bank: &mut Bank, body: &Vec<u8>) -> (r: Result<Vec<u8>, HandleError>)
        requires
            old(self).inv(),
            old(bank).wf(),
            has_acct(old(bank)@.accounts, old(self)@.id),
        ensures
            final(bank).wf(),
            final(self).inv(),
            has_acct(final(bank)@.accounts, final(self)@.id),
            final(self)@.id == old(self)@.id,
            ({
                let eff = spec_step_logged(old(self)@, old(bank)@, body@);
                &&& (r is Ok <==> eff.kind is Accepted)
                &&& (eff.kind is Rejected ==> r matches Err(HandleError::UserInput(_)))
                &&& (r matches Err(HandleError::UserInput(m)) ==> eff.kind is Rejected
                    && eff.reply == Some(msgb_packet_bytes(m.msg@)) && m.msg@.len() <= 64)
                &&& (r matches Err(HandleError::Fatal(m)) ==> eff.kind is Fatal && eff.reply
                    == Some(errr_packet_bytes(m@)) && m@.len() <= 64)
                &&& (r matches Ok(resp) ==> resp@ == eff.reply.unwrap())
                &&& eff.state == SessionView::Authenticated(final(self)@)
                &&& final(bank)@.accounts == eff.accounts
                &&& (match eff.append {
                    None => final(bank)@.logs == old(bank)@.logs && final(bank)@.next_tid == old(
                        bank,
                    )@.next_tid,
                    Some(ap) => logs_appended(
                        old(bank)@.logs,
                        final(bank)@.logs,
                        old(bank)@.next_tid,
                        ap.receiver,
                        ap.sender,
                        ap.amount,
                    ) && final(bank)@.next_tid == next_tid_bump(old(bank)@.next_tid),
                })
                &&& (r is Ok ==> eff.reply is Some)
                &&& (eff.keep <==> !(r matches Err(HandleError::Fatal(_))))
            }),
    {
        let ghost eff = spec_step_logged(old(self)@, old(bank)@, body@);
        let ghost prior = old(bank)@;
        if body.len() == 0 {
            proof {
                lemma_message_lengths();
                assert(eff == step_fatal(
                    "wrong packet type or length"@,
                    prior.accounts,
                    SessionView::Authenticated(old(self)@),
                )) by {
                    reveal(spec_step_logged);
                }
            }
            return Err(HandleError::Fatal("wrong packet type or length"));
        }
        let opcode = body[0];
        let uid = self.user.id;
        if opcode == 0 && body.len() == 5 {
            let amount = read_u32(body, 1);
            let acct = match bank.find_account(uid) {
                Some(a) => a,
                None => {
                    proof {
                        assert(false);
                    }
                    return Err(HandleError::Fatal("wrong packet type or length"));
                },
            };
            proof {
                lemma_acct_of_ok(prior.accounts, uid);
            }
            if amount > BALANCE_CAP - acct.balance {
                proof {
                    lemma_message_lengths();
                    assert(eff == step_rejected(
                        "deposit limit exceeded"@,
                        prior.accounts,
                        SessionView::Authenticated(old(self)@),
                    )) by {
                        reveal(spec_step_logged);
                    }
                }
                return Err(HandleError::UserInput(UserInputError::new("deposit limit exceeded")));
            }
            let refreshed = bank.adjust_balance(uid, amount as i32);
            let label = "deposit".to_owned();
            proof {
                lemma_message_lengths();
            }
            bank.append_trade_log(uid, label, amount as i32);
            let user = User {
                id: refreshed.id,
                balance: refreshed.balance,
                name: refreshed.name,
                phone: refreshed.phone,
            };
            proof {
                lemma_acct_of_ok(bank@.accounts, uid);
                assert(eff == (StepEffect {
                    kind: StepKind::Accepted,
                    keep: true,
                    reply: Some(menu_packet_bytes(user@)),
                    accounts: spec_adjust(prior.accounts, uid, amount as int),
                    append: Some(
                        LogAppend { receiver: uid, sender: "deposit"@, amount: amount as i32 },
                    ),
                    state: SessionView::Authenticated(user@),
                })) by {
                    reveal(spec_step_logged);
                }
            }
            let resp = build_menu_packet(&user);
            self.user = user;
            Ok(resp)
        } else if opcode == 1 && body.len() == 5 {
            let amount = read_u32(body, 1);
            let acct = match bank.find_account(uid) {
                Some(a) => a,
                None => {
                    proof {
                        assert(false);
                    }
                    return Err(HandleError::Fatal("wrong packet type or length"));
                },
            };
            proof {
                lemma_acct_of_ok(prior.accounts, uid);
            }
            if amount > acct.balance {
                proof {
                    lemma_message_lengths();
                    assert(eff == step_rejected(
                        "insufficient balance"@,
                        prior.accounts,
                        SessionView::Authenticated(old(self)@),
                    )) by {
                        reveal(spec_step_logged);
                    }
                }
                return Err(HandleError::UserInput(UserInputError::new("insufficient balance")));
            }
            let refreshed = bank.adjust_balance(uid, -(amount as i32));
            let label = "withdraw".to_owned();
            proof {
                lemma_message_lengths();
            }
            bank.append_trade_log(uid, label, -(amount as i32));
            let user = User {
                id: refreshed.id,
                balance: refreshed.balance,
                name: refreshed.name,
                phone: refreshed.phone,
            };
            proof {
                lemma_acct_of_ok(bank@.accounts, uid);
                assert(eff == (StepEffect {
                    kind: StepKind::Accepted,
                    keep: true,
                    reply: Some(menu_packet_bytes(user@)),
                    accounts: spec_adjust(prior.accounts, uid, -(amount as int)),
                    append: Some(
                        LogAppend {
                            receiver: uid,
                            sender: "withdraw"@,
                            amount: (-(amount as int)) as i32,
                        },
                    ),
                    state: SessionView::Authenticated(user@),
                })) by {
                    reveal(spec_step_logged);
                }
            }
            let resp = build_menu_packet(&user);
            self.user = user;
            Ok(resp)
        } else if opcode == 2 && body.len() == 9 {
            self.handle_transfer(bank, body)
        } else if opcode == 3 && body.len() == 1 {
            let hist = bank.trade_history(uid);
            proof {
                assert forall|j: int| 0 <= j < hist@.len() implies (#[trigger] hist@[j])@.sender.len()
                    <= 16 by {
                    let hv = hist@.map_values(|e: crate::ledger::TradeLogEntry| e@);
                    assert(hv[j] == hist@[j]@);
                    assert(hv.contains(hv[j]));
                    lemma_history_membership(prior.logs, uid, hv[j]);
                    let w = choose|w: int| 0 <= w < prior.logs.len() && prior.logs[w] == hv[j];
                    assert(prior.logs[w].sender.len() <= 16);
                }
            }
            let resp = build_info_packet(&self.user, &hist);
            proof {
                assert(eff == (StepEffect {
                    kind: StepKind::Accepted,
                    keep: true,
                    reply: Some(info_packet_bytes(old(self)@, history_of(prior.logs, uid))),
                    accounts: prior.accounts,
                    append: None,
                    state: SessionView::Authenticated(old(self)@),
                })) by {
                    reveal(spec_step_logged);
                }
            }
            Ok(resp)
        } else {
            proof {
                lemma_message_lengths();
                assert(eff == step_fatal(
                    "wrong packet type or length"@,
                    prior.accounts,
                    SessionView::Authenticated(old(self)@),
                )) by {
                    reveal(spec_step_logged);
                }
            }
            Err(HandleError::Fatal("wrong packet type or length"))
        }
    }

    /// The transfer opcode: validates the target's cap and the sender's
    /// floor against the store, then credits, logs the credit leg, and
    /// debits.
    fn handle_transfer(&mut self, bank: &mut Bank, body: &Vec<u8>) -> (r: Result<
        Vec<u8>,
        HandleError,
    >)
        requires
            old(self).inv(),
            old(bank).wf(),
            has_acct(old(bank)@.accounts, old(self)@.id),
            body@.len() == 9,
            body@[0] == 2,
        ensures
            final(bank).wf(),
            final(self).inv(),
            has_acct(final(bank)@.accounts, final(self)@.id),
            final(self)@.id == old(self)@.id,
            ({
                let eff = spec_step_logged(old(self)@, old(bank)@, body@);
                &&& (r is Ok <==> eff.kind is Accepted)
                &&& (eff.kind is Rejected ==> r matches Err(HandleError::UserInput(_)))
                &&& (r matches Err(HandleError::UserInput(m)) ==> eff.kind is Rejected
                    && eff.reply == Some(msgb_packet_bytes(m.msg@)) && m.msg@.len() <= 64)
                &&& (r matches Err(HandleError::Fatal(m)) ==> eff.kind is Fatal && eff.reply
                    == Some(errr_packet_bytes(m@)) && m@.len() <= 64)
                &&& (r matches Ok(resp) ==> resp@ == eff.reply.unwrap())
                &&& eff.state == SessionView::Authenticated(final(self)@)
                &&& final(bank)@.accounts == eff.accounts
                &&& (match eff.append {
                    None => final(bank)@.logs == old(bank)@.logs && final(bank)@.next_tid == old(
                        bank,
                    )@.next_tid,
                    Some(ap) => logs_appended(
                        old(bank)@.logs,
                        final(bank)@.logs,
                        old(bank)@.next_tid,
                        ap.receiver,
                        ap.sender,
                        ap.amount,
                    ) && final(bank)@.next_tid == next_tid_bump(old(bank)@.next_tid),
                })
                &&& (r is Ok ==> eff.reply is Some)
                &&& (eff.keep <==> !(r matches Err(HandleError::Fatal(_))))
            }),
    {
        let ghost eff = spec_step_logged(old(self)@, old(bank)@, body@);
        let ghost prior = old(bank)@;
        let uid = self.user.id;
        let target = read_u32(body, 1);
        let amount = read_u32(body, 5);
        let tacct = match bank.find_account(target) {
            Some(t) => t,
            None => {
                proof {
                    lemma_message_lengths();
                    assert(eff == step_rejected(
                        "target account not found"@,
                        prior.accounts,
                        SessionView::Authenticated(old(self)@),
                    )) by {
                        reveal(spec_step_logged);
                    }
                }
                return Err(HandleError::UserInput(UserInputError::new("target account not found")));
            },
        };
        proof {
            lemma_acct_of_ok(prior.accounts, target);
        }
        if amount > BALANCE_CAP - tacct.balance {
            proof {
                lemma_message_lengths();
                assert(eff == step_rejected(
                    "target deposit limit reached"@,
                    prior.accounts,
                    SessionView::Authenticated(old(self)@),
                )) by {
                    reveal(spec_step_logged);
                }
            }
            return Err(HandleError::UserInput(UserInputError::new("target deposit limit reached")));
        }
        let sacct = match bank.find_account(uid) {
            Some(a) => a,
            None => {
                proof {
                    assert(false);
                }
                return Err(HandleError::Fatal("wrong packet type or length"));
            },
        };
        if sacct.balance < amount {
            proof {
                lemma_message_lengths();
                assert(eff == step_rejected(
                    "insufficient balance"@,
                    prior.accounts,
                    SessionView::Authenticated(old(self)@),
                )) by {
                    reveal(spec_step_logged);
                }
            }
            return Err(HandleError::UserInput(UserInputError::new("insufficient balance")));
        }
        let _credited = bank.adjust_balance(target, amount as i32);
        let label = u32_to_dec_string(uid);
        proof {
            lemma_dec_chars_len_u32(uid);
        }
        bank.append_trade_log(target, label, amount as i32);
        proof {
            lemma_adjust_effect(prior.accounts, target, amount as int, uid);
        }
        let refreshed = bank.adjust_balance(uid, -(amount as i32));
        let user = User {
            id: refreshed.id,
            balance: refreshed.balance,
            name: refreshed.name,
            phone: refreshed.phone,
        };
        proof {
            lemma_acct_of_ok(bank@.accounts, uid);
            assert(eff == (StepEffect {
                kind: StepKind::Accepted,
                keep: true,
                reply: Some(menu_packet_bytes(user@)),
                accounts: spec_adjust(
                    spec_adjust(prior.accounts, target, amount as int),
                    old(self)@.id,
                    -(amount as int),
                ),
                append: Some(
                    LogAppend {
                        receiver: target,
                        sender: dec_chars(old(self)@.id as nat),
                        amount: amount as i32,
                    },
                ),
                state: SessionView::Authenticated(user@),
            })) by {
                reveal(spec_step_logged);
            }
        }
        let resp = build_menu_packet(&user);
        self.user = user;
        Ok(resp)
    }
}

/// The session handler a connection currently runs: the unauthenticated
/// one, or the authenticated one with its bound snapshot.
pub enum SessionHandler {
    Login(HandleLogin),
    Logged(LoggedHandler),
}

/// One connection's protocol state: frame validation and dispatch on the
/// session state.
pub struct BankConnection {
    pub handler: SessionHandler,
}

impl View for BankConnection {
    type V = SessionView;

    open spec fn view(&self) -> SessionView {
        match self.handler {
            SessionHandler::Login(_) => SessionView::Unauthenticated,
            SessionHandler::Logged(h) => SessionView::Authenticated(h@),
        }
    }
}

/// Copies the body of a framed packet out of the datagram.
fn extract_body(data: &Vec<u8>) -> (r: Vec<u8>)
    requires
        data@.len() >= 8,
    ensures
        r@ == frame_body(data@),
{
    let mut body: Vec<u8> = Vec::new();
    let mut i: usize = 8;
    while i < data.len()
        invariant
            8 <= i <= data@.len(),
            body@ == data@.subrange(8, i as int),
        decreases data@.len() - i,
    {
        body.push(data[i]);
        proof {
            assert(body@ =~= data@.subrange(8, i + 1));
        }
        i = i + 1;
    }
    body
}

impl BankConnection {
    /// An authenticated connection is bound to an account the store holds,
    /// with a snapshot that fits the wire.
    pub open spec fn inv(&self, bank: BankView) -> bool {
        match self.handler {
            SessionHandler::Login(_) => true,
            SessionHandler::Logged(h) => h.inv() && has_acct(bank.accounts, h@.id),
        }
    }

    /// A fresh, unauthenticated connection.
    pub fn new() -> (r: Self)
        ensures
            r@ == SessionView::Unauthenticated,
            forall|b: BankView| #[trigger] r.inv(b),
    {
        BankConnection { handler: SessionHandler::Login(HandleLogin {  }) }
    }

    /// Handles one datagram, exactly as [`spec_step`] says: a bad frame
    /// closes the connection silently; otherwise the body is dispatched on
    /// the session state, a recoverable error becomes a `msgb` notice, a
    /// fatal one an `errr` notice followed by closing, and a successful
    /// step's reply is queued reliably.
    pub fn handle(&mut self, bank: &mut Bank, data: &Vec<u8>) -> (r: (bool, Option<NetworkMessage>))
        requires
            old(self).inv(old(bank)@),
            old(bank).wf(),
        ensures
            final(bank).wf(),
            final(self).inv(final(bank)@),
            ({
                let eff = spec_step(old(self)@, old(bank)@, data@);
                &&& r.0 == eff.keep
                &&& (match r.1 {
                    Some(msg) => (msg matches NetworkMessage::Rely(v) && Some(v@) == eff.reply),
                    None => eff.reply is None,
                })
                &&& final(self)@ == eff.state
                &&& final(bank)@.accounts == eff.accounts
                &&& (match eff.append {
                    None => final(bank)@.logs == old(bank)@.logs && final(bank)@.next_tid == old(
                        bank,
                    )@.next_tid,
                    Some(ap) => logs_appended(
                        old(bank)@.logs,
                        final(bank)@.logs,
                        old(bank)@.next_tid,
                        ap.receiver,
                        ap.sender,
                        ap.amount,
                    ) && final(bank)@.next_tid == next_tid_bump(old(bank)@.next_tid),
                })
            }),
    {
        if !check_frame(data) {
            return (false, None);
        }
        let body = extract_body(data);
        let logged = match &self.handler {
            SessionHandler::Login(_) => false,
            SessionHandler::Logged(_) => true,
        };
        if !logged {
            let h = HandleLogin {  };
            match h.handle(bank, &body) {
                Ok(p) => {
                    let (lh, resp) = p;
                    self.handler = SessionHandler::Logged(lh);
                    (true, Some(NetworkMessage::Rely(resp)))
                },
                Err(HandleError::UserInput(m)) => {
                    let p = build_msgb_packet(m.msg);
                    (true, Some(NetworkMessage::Rely(p)))
                },
                Err(HandleError::Fatal(m)) => {
                    let p = build_errr_packet(m);
                    (false, Some(NetworkMessage::Rely(p)))
                },
            }
        } else {
            match &mut self.handler {
                SessionHandler::Logged(h) => {
                    match h.handle(bank, &body) {
                        Ok(resp) => (true, Some(NetworkMessage::Rely(resp))),
                        Err(HandleError::UserInput(m)) => {
                            let p = build_msgb_packet(m.msg);
                            (true, Some(NetworkMessage::Rely(p)))
                        },
                        Err(HandleError::Fatal(m)) => {
                            let p = build_errr_packet(m);
                            (false, Some(NetworkMessage::Rely(p)))
                        },
                    }
                },
                SessionHandler::Login(_) => {
                    proof {
                        assert(false);
                    }
                    (false, None)
                },
            }
        }
    }
}

/// Law: a login whose id exists but whose credential differs is always a
/// recoverable error — the session stays unauthenticated, the connection
/// stays open, and the store is untouched.
pub proof fn lemma_login_wrong_credential(bank: BankView, b: Seq<u8>)
    requires
        b.len() == 8,
        has_acct(bank.accounts, login_id(b)),
        acct_of(bank.accounts, login_id(b)).credential != login_credential(b),
    ensures
        ({
            let eff = spec_step_login(bank, b);
            &&& eff.kind is Rejected
            &&& eff.state == SessionView::Unauthenticated
            &&& eff.accounts == bank.accounts
            &&& eff.append is None
            &&& eff.keep
        }),
{
    reveal(spec_step_login);
}

/// Law: registering an id twice always has the second attempt rejected as
/// a recoverable error, and no account data changes at all — in
/// particular the first account is exactly as the first step left it.
pub proof fn lemma_register_twice(bank: BankView, b1: Seq<u8>, b2: Seq<u8>)
    requires
        b1.len() > 8,
        b2.len() > 8,
        login_id(b2) == login_id(b1),
        register_fields(b2) is Ok,
        encode_utf8(register_fields(b2).unwrap().0).len() <= 60,
        encode_utf8(register_fields(b2).unwrap().1).len() <= 20,
        spec_step_login(bank, b1).kind is Accepted,
    ensures
        ({
            let mid = BankView {
                accounts: spec_step_login(bank, b1).accounts,
                logs: bank.logs,
                next_tid: bank.next_tid,
            };
            let eff2 = spec_step_login(mid, b2);
            &&& eff2.kind is Rejected
            &&& eff2.accounts == mid.accounts
            &&& eff2.append is None
            &&& eff2.state == SessionView::Unauthenticated
        }),
{
    reveal(spec_step_login);
    let eff1 = spec_step_login(bank, b1);
    let id = login_id(b1);
    assert(eff1.accounts.last().id == id);
    assert(has_acct(eff1.accounts, id));
}

/// Law: a deposit that would push the balance over the cap is rejected
/// and neither the account nor the log changes.
pub proof fn lemma_deposit_over_cap(u: UserView, bank: BankView, b: Seq<u8>)
    requires
        b.len() == 5,
        b[0] == 0,
        acct_of(bank.accounts, u.id).balance + body_amount(b) > BALANCE_CAP,
    ensures
        ({
            let eff = spec_step_logged(u, bank, b);
            &&& eff.kind is Rejected
            &&& eff.accounts == bank.accounts
            &&& eff.append is None
            &&& eff.state == SessionView::Authenticated(u)
            &&& eff.keep
        }),
{
    reveal(spec_step_logged);
}

/// Law: a withdrawal of more than the balance is rejected and neither the
/// account nor the log changes.
pub proof fn lemma_withdraw_over_balance(u: UserView, bank: BankView, b: Seq<u8>)
    requires
        b.len() == 5,
        b[0] == 1,
        body_amount(b) > acct_of(bank.accounts, u.id).balance,
    ensures
        ({
            let eff = spec_step_logged(u, bank, b);
            &&& eff.kind is Rejected
            &&& eff.accounts == bank.accounts
            &&& eff.append is None
            &&& eff.state == SessionView::Authenticated(u)
            &&& eff.keep
        }),
{
    reveal(spec_step_logged);
}

/// Law: a transfer that would push the receiving balance over the cap is
/// rejected, and neither the sender's nor the receiver's balance changes.
pub proof fn lemma_transfer_over_cap(u: UserView, bank: BankView, b: Seq<u8>)
    requires
        b.len() == 9,
        b[0] == 2,
        has_acct(bank.accounts, transfer_target(b)),
        acct_of(bank.accounts, transfer_target(b)).balance + transfer_amount(b) > BALANCE_CAP,
    ensures
        ({
            let eff = spec_step_logged(u, bank, b);
            &&& eff.kind is Rejected
            &&& eff.accounts == bank.accounts
            &&& eff.append is None
            &&& eff.state == SessionView::Authenticated(u)
            &&& eff.keep
        }),
{
    reveal(spec_step_logged);
}

/// Law: a body whose length does not fit its opcode is a fatal protocol
/// error — the connection is terminated, and the store is untouched.
pub proof fn lemma_bad_length_fatal(state: SessionView, bank: BankView, d: Seq<u8>)
    requires
        spec_valid_frame(d),
        state is Authenticated,
        ({
            let b = frame_body(d);
            &&& b.len() >= 1
            &&& ((b[0] == 0 && b.len() != 5) || (b[0] == 1 && b.len() != 5) || (b[0] == 2
                && b.len() != 9) || (b[0] == 3 && b.len() != 1))
        }),
    ensures
        ({
            let eff = spec_step(state, bank, d);
            &&& eff.kind is Fatal
            &&& !eff.keep
            &&& eff.accounts == bank.accounts
            &&& eff.append is None
        }),
{
    reveal(spec_step_logged);
}

/// Law: an authenticated session never becomes unauthenticated again — no
/// step, whatever the datagram, moves the state back.
pub proof fn lemma_no_logout(state: SessionView, bank: BankView, d: Seq<u8>)
    requires
        state is Authenticated,
    ensures
        spec_step(state, bank, d).state is Authenticated,
{
    reveal(spec_step_logged);
}

/// Law: an unauthenticated session becomes authenticated only when a login
/// or registration was accepted.
pub proof fn lemma_transition_only_on_success(bank: BankView, d: Seq<u8>)
    ensures
        ({
            let eff = spec_step(SessionView::Unauthenticated, bank, d);
            eff.state is Authenticated ==> eff.kind is Accepted
        }),
{
    reveal(spec_step_login);
}

/// Law: one step of the state machine keeps the store invariant — account
/// ids stay unique and every balance stays within `[0, BALANCE_CAP]` — so
/// the invariant holds after any sequence of steps, whatever each decided.
pub proof fn lemma_step_preserves_store_invariant(state: SessionView, bank: BankView, d: Seq<u8>)
    requires
        unique_ids(bank.accounts),
        accounts_ok(bank.accounts),
    ensures
        unique_ids(spec_step(state, bank, d).accounts),
        accounts_ok(spec_step(state, bank, d).accounts),
{
    reveal(spec_step_login);
    reveal(spec_step_logged);
    let s = bank.accounts;
    if spec_valid_frame(d) {
        let b = frame_body(d);
        match state {
            SessionView::Unauthenticated => {
                if b.len() > 8 {
                    match register_fields(b) {
                        Ok(fields) => {
                            if encode_utf8(fields.0).len() <= 60 && encode_utf8(fields.1).len()
                                <= 20 && !has_acct(s, login_id(b)) {
                                lemma_encode_utf8_len(fields.0);
                                lemma_encode_utf8_len(fields.1);
                                let t = spec_step(state, bank, d).accounts;
                                assert(t == s.push(
                                    AccountView {
                                        id: login_id(b),
                                        credential: login_credential(b),
                                        balance: 0,
                                        name: fields.0,
                                        phone: fields.1,
                                    },
                                ));
                                assert forall|j: int, k: int| 0 <= j < k < t.len() implies (
                                #[trigger] t[j].id) != (#[trigger] t[k].id) by {
                                    if k == t.len() - 1 {
                                        assert(!has_acct(s, login_id(b)));
                                        assert(t[j] == s[j]);
                                    }
                                }
                                assert(accounts_ok(t));
                            }
                        },
                        Err(_) => {},
                    }
                }
            },
            SessionView::Authenticated(u) => {
                if b.len() == 5 && b[0] == 0 {
                    let amt = body_amount(b);
                    if acct_of(s, u.id).balance + amt <= BALANCE_CAP {
                        lemma_adjust_effect(s, u.id, amt as int, u.id);
                        let t = spec_adjust(s, u.id, amt as int);
                        assert forall|j: int| 0 <= j < t.len() implies (#[trigger] t[j]).balance
                            <= BALANCE_CAP && t[j].name.len() <= 60 && t[j].phone.len() <= 20 by {
                            if s[j].id == u.id {
                                lemma_acct_at(s, u.id, j);
                            }
                        }
                    }
                } else if b.len() == 5 && b[0] == 1 {
                    let amt = body_amount(b);
                    if acct_of(s, u.id).balance >= amt {
                        lemma_adjust_effect(s, u.id, -(amt as int), u.id);
                        let t = spec_adjust(s, u.id, -(amt as int));
                        assert forall|j: int| 0 <= j < t.len() implies (#[trigger] t[j]).balance
                            <= BALANCE_CAP && t[j].name.len() <= 60 && t[j].phone.len() <= 20 by {
                            if s[j].id == u.id {
                                lemma_acct_at(s, u.id, j);
                            }
                        }
                    }
                } else if b.len() == 9 && b[0] == 2 {
                    let target = transfer_target(b);
                    let amt = transfer_amount(b);
                    if has_acct(s, target) && acct_of(s, target).balance + amt <= BALANCE_CAP
                        && acct_of(s, u.id).balance >= amt {
                        lemma_adjust_effect(s, target, amt as int, target);
                        lemma_adjust_effect(s, target, amt as int, u.id);
                        let t1 = spec_adjust(s, target, amt as int);
                        assert forall|j: int| 0 <= j < t1.len() implies (#[trigger] t1[j]).balance
                            <= BALANCE_CAP && t1[j].name.len() <= 60 && t1[j].phone.len()
                            <= 20 by {
                            if s[j].id == target {
                                lemma_acct_at(s, target, j);
                            }
                        }
                        lemma_adjust_effect(t1, u.id, -(amt as int), u.id);
                        let t2 = spec_adjust(t1, u.id, -(amt as int));
                        assert forall|j: int| 0 <= j < t2.len() implies (#[trigger] t2[j]).balance
                            <= BALANCE_CAP && t2[j].name.len() <= 60 && t2[j].phone.len()
                            <= 20 by {
                            if t1[j].id == u.id {
                                lemma_acct_at(t1, u.id, j);
                                if has_acct(s, u.id) {
                                    lemma_acct_at(s, u.id, j);
                                }
                            }
                        }
                    }
                }
            },
        }
    }
}

} // verus!
