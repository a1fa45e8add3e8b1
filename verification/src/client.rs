//! The peer side of the protocol: form state, request building with input
//! validation, and reading the server's tagged replies.
//!
//! Rendering and windowing stay outside this crate; what stands here is
//! every decision the client screens make — which bytes a button click
//! sends, and what a received packet means.

use vstd::prelude::*;

verus! {

use crate::codec::{
    all_dec_bytes,
    dec_bytes_value,
    parse_dec_u32,
    parse_dec_u64,
    be32_val,
    u32_as_i32,
    u64_as_i64,
    parse_string_at,
    read_u32,
    read_u64,
    wire_to_i32,
    wire_to_i64,
    read_string,
    CodecError,
};
use crate::ext::{spec_magic, CURRENT_VERSION};
use vstd::utf8::encode_utf8;
use crate::protocol::{
    User,
    UserView,
    login_packet_bytes,
    register_packet_bytes,
    deposit_packet_bytes,
    withdraw_packet_bytes,
    transfer_packet_bytes,
    history_packet_bytes,
    build_login_packet,
    build_register_packet,
    build_deposit_packet,
    build_withdraw_packet,
    build_transfer_packet,
    build_history_packet,
    tag_menu,
    tag_msgb,
    tag_info,
    check_frame,
};

/// Why a form refused to send a request.
#[derive(Clone, Copy, Debug, PartialEq, Eq, Structural)]
pub enum ClientInputError {
    /// A required field is empty.
    EmptyField,
    /// A numeric field does not hold a number of the expected width.
    NotANumber,
    /// A text field is too long for the wire format.
    TooLong,
    /// The withdrawal asks for more than the last known balance.
    OverBalance,
}

/// What the configuration gives the client.
pub struct ConfigData {
    user_name: String,
}

impl View for ConfigData {
    type V = Seq<char>;

    closed spec fn view(&self) -> Seq<char> {
        self.user_name@
    }
}

impl ConfigData {
    /// Takes the configured user name, falling back to `guest`.
    pub fn from_name(name: Option<String>) -> (r: Self)
        ensures
            match name {
                Some(n) => r@ == n@,
                None => r@ == "guest"@,
            },
    {
        match name {
            Some(n) => ConfigData { user_name: n },
            None => ConfigData { user_name: "guest".to_owned() },
        }
    }

    /// The configured user name.
    pub fn user_name(&self) -> (r: &String)
        ensures
            r@ == self@,
    {
        &self.user_name
    }
}

/// The screen that picks an address and joins or hosts.
pub struct JoiningRoom {
    pub addr: String,
    pub is_join: bool,
}

impl Default for JoiningRoom {
    /// The hosting default: listen on every interface.
    fn default() -> (r: Self)
        ensures
            r.addr@ == "0.0.0.0:5555"@,
            !r.is_join,
    {
        JoiningRoom { addr: "0.0.0.0:5555".to_owned(), is_join: false }
    }
}

impl JoiningRoom {
    /// The joining preset: the local server address.
    pub fn join() -> (r: Self)
        ensures
            r.addr@ == "[::1]:1234"@,
            r.is_join,
    {
        JoiningRoom { addr: "[::1]:1234".to_owned(), is_join: true }
    }
}

/// The first bank screen: choose between logging in and registering.
#[derive(Default)]
pub struct BankMenu {}

/// The login form.
#[derive(Default)]
pub struct Login {
    pub id: String,
    pub password: String,
}

impl Login {
    /// Builds the login request from the form, with the credential already
    /// derived from the password.  Empty fields and non-numeric ids are
    /// refused; an id wider than 32 bits is truncated, as the wire field
    /// is.
    pub fn submit(&self, credential: i32) -> (r: Result<Vec<u8>, ClientInputError>)
        ensures
            self.id@.len() == 0 || self.password@.len() == 0 ==> r == Err::<Vec<u8>,
                ClientInputError,
            >(ClientInputError::EmptyField),
            self.id@.len() > 0 && self.password@.len() > 0 && !(all_dec_bytes(encode_utf8(self.id@))
                && dec_bytes_value(encode_utf8(self.id@)) <= u64::MAX) ==> r == Err::<Vec<u8>,
                ClientInputError,
            >(ClientInputError::NotANumber),
            ({
                &&& self.id@.len() > 0
                &&& self.password@.len() > 0
                &&& all_dec_bytes(encode_utf8(self.id@))
                &&& dec_bytes_value(encode_utf8(self.id@)) <= u64::MAX
            }) ==> (r matches Ok(p) && p@ == login_packet_bytes(
                (dec_bytes_value(encode_utf8(self.id@)) % 0x1_0000_0000) as u32,
                credential,
            )),
    {
        if self.id.as_str().is_empty() || self.password.as_str().is_empty() {
            return Err(ClientInputError::EmptyField);
        }
        let id = match parse_dec_u64(self.id.as_str()) {
            Some(v) => v,
            None => {
                return Err(ClientInputError::NotANumber);
            },
        };
        let id32: u32 = (id % 0x1_0000_0000) as u32;
        Ok(build_login_packet(id32, credential))
    }
}

/// The registration form.
#[derive(Default)]
pub struct Register {
    pub id: String,
    pub password: String,
    pub name: String,
    pub phone: String,
}

impl Register {
    /// Builds the register request from the form, with the credential
    /// already derived from the password.  Empty id or password and
    /// non-numeric ids are refused, and so are name or phone fields whose
    /// bytes cannot fit the wire's length prefix.
    pub fn submit(&self, credential: i32) -> (r: Result<Vec<u8>, ClientInputError>)
        ensures
            self.id@.len() == 0 || self.password@.len() == 0 ==> r == Err::<Vec<u8>,
                ClientInputError,
            >(ClientInputError::EmptyField),
            self.id@.len() > 0 && self.password@.len() > 0 && !(all_dec_bytes(encode_utf8(self.id@))
                && dec_bytes_value(encode_utf8(self.id@)) <= u64::MAX) ==> r == Err::<Vec<u8>,
                ClientInputError,
            >(ClientInputError::NotANumber),
            ({
                &&& self.id@.len() > 0
                &&& self.password@.len() > 0
                &&& all_dec_bytes(encode_utf8(self.id@))
                &&& dec_bytes_value(encode_utf8(self.id@)) <= u64::MAX
                &&& encode_utf8(self.name@).len() > 0x3fff || encode_utf8(self.phone@).len()
                    > 0x3fff
            }) ==> r == Err::<Vec<u8>, ClientInputError>(ClientInputError::TooLong),
            ({
                &&& self.id@.len() > 0
                &&& self.password@.len() > 0
                &&& all_dec_bytes(encode_utf8(self.id@))
                &&& dec_bytes_value(encode_utf8(self.id@)) <= u64::MAX
                &&& encode_utf8(self.name@).len() <= 0x3fff
                &&& encode_utf8(self.phone@).len() <= 0x3fff
            }) ==> (r matches Ok(p) && p@ == register_packet_bytes(
                (dec_bytes_value(encode_utf8(self.id@)) % 0x1_0000_0000) as u32,
                credential,
                self.name@,
                self.phone@,
            )),
    {
        if self.id.as_str().is_empty() || self.password.as_str().is_empty() {
            return Err(ClientInputError::EmptyField);
        }
        let id = match parse_dec_u64(self.id.as_str()) {
            Some(v) => v,
            None => {
                return Err(ClientInputError::NotANumber);
            },
        };
        if self.name.as_str().as_bytes().len() > 0x3fff || self.phone.as_str().as_bytes().len()
            > 0x3fff {
            return Err(ClientInputError::TooLong);
        }
        proof {
            crate::codec::lemma_encode_utf8_len(self.name@);
            crate::codec::lemma_encode_utf8_len(self.phone@);
        }
        let id32: u32 = (id % 0x1_0000_0000) as u32;
        Ok(build_register_packet_checked(id32, credential, &self.name, &self.phone))
    }
}

/// Builds a register request whose fields are already known to fit.
fn build_register_packet_checked(id: u32, credential: i32, name: &String, phone: &String) -> (r:
    Vec<u8>)
    requires
        encode_utf8(name@).len() <= 0x3fff,
        encode_utf8(phone@).len() <= 0x3fff,
    ensures
        r@ == register_packet_bytes(id, credential, name@, phone@),
{
    proof {
        crate::codec::lemma_encode_utf8_len(name@);
        crate::codec::lemma_encode_utf8_len(phone@);
    }
    build_register_packet(id, credential, name.as_str(), phone.as_str())
}

/// The account screen: the bound snapshot, with the four operations.
pub struct Index {
    pub user: User,
}

impl Index {
    /// The whole-unit and fractional parts of the balance, as the screen
    /// shows them.
    pub fn balance_parts(&self) -> (r: (u32, u32))
        ensures
            r.0 == self.user@.balance / 100,
            r.1 == self.user@.balance % 100,
    {
        (self.user.balance / 100, self.user.balance % 100)
    }

    /// The history request the log button sends.
    pub fn request_history(&self) -> (r: Vec<u8>)
        ensures
            r@ == history_packet_bytes(),
    {
        build_history_packet()
    }
}

/// The deposit form: the snapshot and the typed amount.
pub struct Deposit {
    pub user: User,
    pub amount: String,
}

impl Deposit {
    /// Starts an empty deposit form over a snapshot.
    pub fn new(user: User) -> (r: Self)
        ensures
            r.user@ == user@,
            r.amount@.len() == 0,
    {
        Deposit { user, amount: String::new() }
    }

    /// Builds the deposit request; a non-numeric amount is refused and a
    /// zero amount sends nothing.
    pub fn submit(&self) -> (r: Result<Option<Vec<u8>>, ClientInputError>)
        ensures
            !(all_dec_bytes(encode_utf8(self.amount@)) && dec_bytes_value(encode_utf8(self.amount@))
                <= u32::MAX) ==> r == Err::<Option<Vec<u8>>, ClientInputError>(
                ClientInputError::NotANumber,
            ),
            all_dec_bytes(encode_utf8(self.amount@)) && dec_bytes_value(encode_utf8(self.amount@))
                == 0 ==> r == Ok::<Option<Vec<u8>>, ClientInputError>(None),
            ({
                &&& all_dec_bytes(encode_utf8(self.amount@))
                &&& 0 < dec_bytes_value(encode_utf8(self.amount@)) <= u32::MAX
            }) ==> (r matches Ok(p) && p matches Some(v) && v@ == deposit_packet_bytes(
                dec_bytes_value(encode_utf8(self.amount@)) as u32,
            )),
    {
        let amount = match parse_dec_u32(self.amount.as_str()) {
            Some(v) => v,
            None => {
                return Err(ClientInputError::NotANumber);
            },
        };
        if amount == 0 {
            return Ok(None);
        }
        Ok(Some(build_deposit_packet(amount)))
    }
}

/// The withdraw form: the snapshot and the typed amount.
pub struct Withdraw {
    pub user: User,
    pub amount: String,
}

impl Withdraw {
    /// Starts an empty withdraw form over a snapshot.
    pub fn new(user: User) -> (r: Self)
        ensures
            r.user@ == user@,
            r.amount@.len() == 0,
    {
        Withdraw { user, amount: String::new() }
    }

    /// Builds the withdraw request; a non-numeric amount is refused, one
    /// over the last known balance is refused before anything is sent, and
    /// a zero amount sends nothing.
    pub fn submit(&self) -> (r: Result<Option<Vec<u8>>, ClientInputError>)
        ensures
            !(all_dec_bytes(encode_utf8(self.amount@)) && dec_bytes_value(encode_utf8(self.amount@))
                <= u32::MAX) ==> r == Err::<Option<Vec<u8>>, ClientInputError>(
                ClientInputError::NotANumber,
            ),
            ({
                &&& all_dec_bytes(encode_utf8(self.amount@))
                &&& dec_bytes_value(encode_utf8(self.amount@)) <= u32::MAX
                &&& dec_bytes_value(encode_utf8(self.amount@)) > self.user@.balance
            }) ==> r == Err::<Option<Vec<u8>>, ClientInputError>(ClientInputError::OverBalance),
            ({
                &&& all_dec_bytes(encode_utf8(self.amount@))
                &&& dec_bytes_value(encode_utf8(self.amount@)) == 0
            }) ==> r == Ok::<Option<Vec<u8>>, ClientInputError>(None),
            ({
                &&& all_dec_bytes(encode_utf8(self.amount@))
                &&& 0 < dec_bytes_value(encode_utf8(self.amount@)) <= self.user@.balance
            }) ==> (r matches Ok(p) && p matches Some(v) && v@ == withdraw_packet_bytes(
                dec_bytes_value(encode_utf8(self.amount@)) as u32,
            )),
    {
        let amount = match parse_dec_u32(self.amount.as_str()) {
            Some(v) => v,
            None => {
                return Err(ClientInputError::NotANumber);
            },
        };
        if amount > self.user.balance {
            return Err(ClientInputError::OverBalance);
        }
        if amount == 0 {
            return Ok(None);
        }
        Ok(Some(build_withdraw_packet(amount)))
    }
}

/// The transfer form: the snapshot, the target account and the amount.
pub struct Transfer {
    pub user: User,
    pub target: String,
    pub amount: String,
}

impl Transfer {
    /// Starts an empty transfer form over a snapshot.
    pub fn new(user: User) -> (r: Self)
        ensures
            r.user@ == user@,
            r.target@.len() == 0,
            r.amount@.len() == 0,
    {
        Transfer { user, target: String::new(), amount: String::new() }
    }

    /// Builds the transfer request; non-numeric fields are refused and a
    /// zero amount sends nothing.
    pub fn submit(&self) -> (r: Result<Option<Vec<u8>>, ClientInputError>)
        ensures
            !(all_dec_bytes(encode_utf8(self.target@)) && dec_bytes_value(encode_utf8(self.target@))
                <= u32::MAX) ==> r == Err::<Option<Vec<u8>>, ClientInputError>(
                ClientInputError::NotANumber,
            ),
            ({
                &&& all_dec_bytes(encode_utf8(self.target@))
                &&& dec_bytes_value(encode_utf8(self.target@)) <= u32::MAX
                &&& !(all_dec_bytes(encode_utf8(self.amount@)) && dec_bytes_value(
                    encode_utf8(self.amount@),
                ) <= u32::MAX)
            }) ==> r == Err::<Option<Vec<u8>>, ClientInputError>(ClientInputError::NotANumber),
            ({
                &&& all_dec_bytes(encode_utf8(self.target@))
                &&& dec_bytes_value(encode_utf8(self.target@)) <= u32::MAX
                &&& all_dec_bytes(encode_utf8(self.amount@))
                &&& dec_bytes_value(encode_utf8(self.amount@)) == 0
            }) ==> r == Ok::<Option<Vec<u8>>, ClientInputError>(None),
            ({
                &&& all_dec_bytes(encode_utf8(self.target@))
                &&& dec_bytes_value(encode_utf8(self.target@)) <= u32::MAX
                &&& all_dec_bytes(encode_utf8(self.amount@))
                &&& 0 < dec_bytes_value(encode_utf8(self.amount@)) <= u32::MAX
            }) ==> (r matches Ok(p) && p matches Some(v) && v@ == transfer_packet_bytes(
                dec_bytes_value(encode_utf8(self.target@)) as u32,
                dec_bytes_value(encode_utf8(self.amount@)) as u32,
            )),
    {
        let target = match parse_dec_u32(self.target.as_str()) {
            Some(v) => v,
            None => {
                return Err(ClientInputError::NotANumber);
            },
        };
        let amount = match parse_dec_u32(self.amount.as_str()) {
            Some(v) => v,
            None => {
                return Err(ClientInputError::NotANumber);
            },
        };
        if amount == 0 {
            return Ok(None);
        }
        Ok(Some(build_transfer_packet(target, amount)))
    }
}

/// A scratch screen that keeps sent lines.
#[derive(Default)]
pub struct TestState {
    pub your_data_here: String,
    pub message: Vec<String>,
}

impl TestState {
    /// The lines sent so far.
    pub fn messages(&self) -> (r: &Vec<String>)
        ensures
            r == self.message,
    {
        &self.message
    }

    /// The line being edited.
    pub fn current(&self) -> (r: &String)
        ensures
            r == self.your_data_here,
    {
        &self.your_data_here
    }

    /// Replaces the line being edited.
    pub fn set_current(&mut self, line: String)
        ensures
            final(self).your_data_here == line,
            final(self).message == old(self).message,
    {
        self.your_data_here = line;
    }

    /// Sends the edited line: a non-empty line moves to the sent list and
    /// the editor clears; an empty one does nothing.
    pub fn send_current(&mut self)
        ensures
            old(self).your_data_here@.len() == 0 ==> *final(self) == *old(self),
            old(self).your_data_here@.len() > 0 ==> final(self).message@ == old(
                self,
            ).message@.push(old(self).your_data_here) && final(self).your_data_here@.len() == 0,
    {
        if !self.your_data_here.as_str().is_empty() {
            let line = self.your_data_here.clone();
            self.message.push(line);
            self.your_data_here = String::new();
        }
    }
}

/// One trade-log entry as the client shows it.
pub struct TradeInfo {
    pub tid: i32,
    pub receiver: u32,
    pub sender: String,
    /// Seconds of the UTC instant of the entry.
    pub time_secs: i64,
    /// Nanoseconds within that second.
    pub time_nanos: u32,
    pub amount: i32,
}

/// The mathematical value of a [`TradeInfo`].
pub ghost struct TradeInfoView {
    pub tid: i32,
    pub receiver: u32,
    pub sender: Seq<char>,
    pub time_secs: i64,
    pub time_nanos: u32,
    pub amount: i32,
}

impl View for TradeInfo {
    type V = TradeInfoView;

    open spec fn view(&self) -> TradeInfoView {
        TradeInfoView {
            tid: self.tid,
            receiver: self.receiver,
            sender: self.sender@,
            time_secs: self.time_secs,
            time_nanos: self.time_nanos,
            amount: self.amount,
        }
    }
}

impl TradeInfo {
    /// Wraps one received entry, the instant given as seconds and
    /// nanoseconds.
    pub fn new(tid: i32, receiver: u32, sender: String, time_secs: i64, time_nanos: u32, amount: i32) -> (r: Self)
        ensures
            r@ == (TradeInfoView {
                tid,
                receiver,
                sender: sender@,
                time_secs,
                time_nanos,
                amount,
            }),
    {
        TradeInfo { tid, receiver, sender, time_secs, time_nanos, amount }
    }
}

/// What a received big-endian 32-bit field at `pos` yields.
pub open spec fn parse_u32_at(d: Seq<u8>, pos: int) -> Result<(u32, int), CodecError> {
    if pos + 4 > d.len() {
        Err(CodecError::Truncated)
    } else {
        Ok((be32_val(d.subrange(pos, pos + 4)), pos + 4))
    }
}

/// What a received big-endian 64-bit field at `pos` yields.
pub open spec fn parse_u64_at(d: Seq<u8>, pos: int) -> Result<(u64, int), CodecError> {
    if pos + 8 > d.len() {
        Err(CodecError::Truncated)
    } else {
        Ok((crate::codec::be64_val(d.subrange(pos, pos + 8)), pos + 8))
    }
}

/// What the four user fields at `pos` yield.
pub open spec fn parse_user_at(d: Seq<u8>, pos: int) -> Result<(UserView, int), CodecError> {
    match parse_u32_at(d, pos) {
        Err(e) => Err(e),
        Ok(id) => match parse_string_at(d, id.1) {
            Err(e) => Err(e),
            Ok(name) => match parse_u32_at(d, name.1) {
                Err(e) => Err(e),
                Ok(balance) => match parse_string_at(d, balance.1) {
                    Err(e) => Err(e),
                    Ok(phone) => Ok(
                        (
                            UserView {
                                id: id.0,
                                balance: balance.0,
                                name: name.0,
                                phone: phone.0,
                            },
                            phone.1,
                        ),
                    ),
                },
            },
        },
    }
}

/// What one trade-log record at `pos` yields.
pub open spec fn parse_trade_at(d: Seq<u8>, pos: int) -> Result<(TradeInfoView, int), CodecError> {
    match parse_u32_at(d, pos) {
        Err(e) => Err(e),
        Ok(tid) => match parse_u32_at(d, tid.1) {
            Err(e) => Err(e),
            Ok(receiver) => match parse_string_at(d, receiver.1) {
                Err(e) => Err(e),
                Ok(sender) => match parse_u64_at(d, sender.1) {
                    Err(e) => Err(e),
                    Ok(secs) => match parse_u32_at(d, secs.1) {
                        Err(e) => Err(e),
                        Ok(nanos) => match parse_u32_at(d, nanos.1) {
                            Err(e) => Err(e),
                            Ok(amount) => Ok(
                                (
                                    TradeInfoView {
                                        tid: u32_as_i32(tid.0),
                                        receiver: receiver.0,
                                        sender: sender.0,
                                        time_secs: u64_as_i64(secs.0),
                                        time_nanos: nanos.0,
                                        amount: u32_as_i32(amount.0),
                                    },
                                    amount.1,
                                ),
                            ),
                        },
                    },
                },
            },
        },
    }
}

/// What `n` consecutive trade-log records at `pos` yield.
#[verifier::opaque]
pub open spec fn parse_trades_at(d: Seq<u8>, pos: int, n: nat) -> Result<
    (Seq<TradeInfoView>, int),
    CodecError,
>
    decreases n,
{
    if n == 0 {
        Ok((Seq::empty(), pos))
    } else {
        match parse_trade_at(d, pos) {
            Err(e) => Err(e),
            Ok(first) => match parse_trades_at(d, first.1, (n - 1) as nat) {
                Err(e) => Err(e),
                Ok(rest) => Ok((seq![first.0] + rest.0, rest.1)),
            },
        }
    }
}

/// What one received datagram means to the client.
pub ghost enum ServerEventView {
    /// A bad frame; the client ignores it.
    Ignored,
    /// A recoverable notice to show.
    Notice(Seq<char>),
    /// The account menu with a fresh snapshot.
    Menu(UserView),
    /// The trade history page: the snapshot and its entries.
    Info(UserView, Seq<TradeInfoView>),
    /// A well-framed packet with an unknown tag.
    Unknown,
    /// A recognised tag whose body does not parse.
    Malformed,
}

/// The meaning of a received datagram, exactly as the tagged grammar says.
pub open spec fn spec_server_event(d: Seq<u8>) -> ServerEventView {
    if d.len() < 12 || d.subrange(0, 4) != spec_magic() || be32_val(d.subrange(4, 8))
        != CURRENT_VERSION {
        ServerEventView::Ignored
    } else {
        let tag = d.subrange(8, 12);
        if tag == tag_msgb() {
            match parse_string_at(d, 12) {
                Ok(m) => ServerEventView::Notice(m.0),
                Err(_) => ServerEventView::Malformed,
            }
        } else if tag == tag_menu() {
            match parse_user_at(d, 12) {
                Ok(u) => ServerEventView::Menu(u.0),
                Err(_) => ServerEventView::Malformed,
            }
        } else if tag == tag_info() {
            match parse_u32_at(d, 12) {
                Err(_) => ServerEventView::Malformed,
                Ok(cur) => match parse_u32_at(d, cur.1) {
                    Err(_) => ServerEventView::Malformed,
                    Ok(total) => match parse_u32_at(d, total.1) {
                        Err(_) => ServerEventView::Malformed,
                        Ok(count) => match parse_user_at(d, count.1) {
                            Err(_) => ServerEventView::Malformed,
                            Ok(u) => match parse_trades_at(d, u.1, count.0 as nat) {
                                Err(_) => ServerEventView::Malformed,
                                Ok(ts) => ServerEventView::Info(u.0, ts.0),
                            },
                        },
                    },
                },
            }
        } else {
            ServerEventView::Unknown
        }
    }
}

/// What one received datagram means to the client.
pub enum ServerEvent {
    /// A bad frame; the client ignores it.
    Ignored,
    /// A recoverable notice to show.
    Notice(String),
    /// The account menu with a fresh snapshot.
    Menu(User),
    /// The trade history page: the snapshot and its entries.
    Info(User, Vec<TradeInfo>),
    /// A well-framed packet with an unknown tag.
    Unknown,
    /// A recognised tag whose body does not parse.
    Malformed,
}

impl View for ServerEvent {
    type V = ServerEventView;

    open spec fn view(&self) -> ServerEventView {
        match self {
            ServerEvent::Ignored => ServerEventView::Ignored,
            ServerEvent::Notice(m) => ServerEventView::Notice(m@),
            ServerEvent::Menu(u) => ServerEventView::Menu(u@),
            ServerEvent::Info(u, ts) => ServerEventView::Info(
                u@,
                ts@.map_values(|t: TradeInfo| t@),
            ),
            ServerEvent::Unknown => ServerEventView::Unknown,
            ServerEvent::Malformed => ServerEventView::Malformed,
        }
    }
}

/// Reads the four user fields at `pos`.
fn read_user_at(data: &Vec<u8>, pos: usize) -> (r: Result<(User, usize), CodecError>)
    requires
        pos <= data.len(),
    ensures
        match r {
            Ok(p) => parse_user_at(data@, pos as int) == Ok::<(UserView, int), CodecError>(
                (p.0@, p.1 as int),
            ) && p.1 <= data@.len(),
            Err(e) => parse_user_at(data@, pos as int) == Err::<(UserView, int), CodecError>(e),
        },
{
    if data.len() - pos < 4 {
        return Err(CodecError::Truncated);
    }
    let id = read_u32(data, pos);
    let (name, p1) = match read_string(data, pos + 4) {
        Ok(x) => x,
        Err(e) => {
            return Err(e);
        },
    };
    if data.len() - p1 < 4 {
        return Err(CodecError::Truncated);
    }
    let balance = read_u32(data, p1);
    let (phone, p2) = match read_string(data, p1 + 4) {
        Ok(x) => x,
        Err(e) => {
            return Err(e);
        },
    };
    Ok((User { id, balance, name, phone }, p2))
}

/// Reads one trade-log record at `pos`.
fn read_trade_at(data: &Vec<u8>, pos: usize) -> (r: Result<(TradeInfo, usize), CodecError>)
    requires
        pos <= data.len(),
    ensures
        match r {
            Ok(p) => parse_trade_at(data@, pos as int) == Ok::<(TradeInfoView, int), CodecError>(
                (p.0@, p.1 as int),
            ) && p.1 <= data@.len(),
            Err(e) => parse_trade_at(data@, pos as int) == Err::<(TradeInfoView, int), CodecError>(
                e,
            ),
        },
{
    if data.len() - pos < 8 {
        return Err(CodecError::Truncated);
    }
    let tid = wire_to_i32(read_u32(data, pos));
    let receiver = read_u32(data, pos + 4);
    let (sender, p1) = match read_string(data, pos + 8) {
        Ok(x) => x,
        Err(e) => {
            return Err(e);
        },
    };
    if data.len() - p1 < 16 {
        return Err(CodecError::Truncated);
    }
    let secs = wire_to_i64(read_u64(data, p1));
    let nanos = read_u32(data, p1 + 8);
    let amount = wire_to_i32(read_u32(data, p1 + 12));
    Ok((TradeInfo { tid, receiver, sender, time_secs: secs, time_nanos: nanos, amount }, p1 + 16))
}

/// Reads one received datagram, proved against [`spec_server_event`]: a
/// bad frame is ignored, a known tag is parsed or reported malformed, an
/// unknown tag is reported as such.
#[verifier::loop_isolation(false)]
pub fn parse_server_packet(data: &Vec<u8>) -> (r: ServerEvent)
    ensures
        r@ == spec_server_event(data@),
{
    if data.len() < 12 || !check_frame(data) {
        return ServerEvent::Ignored;
    }
    let t8 = data[8];
    let t9 = data[9];
    let t10 = data[10];
    let t11 = data[11];
    proof {
        assert((data@.subrange(8, 12) =~= tag_msgb()) == (t8 == 109 && t9 == 115 && t10 == 103
            && t11 == 98));
        assert((data@.subrange(8, 12) =~= tag_menu()) == (t8 == 109 && t9 == 101 && t10 == 110
            && t11 == 117));
        assert((data@.subrange(8, 12) =~= tag_info()) == (t8 == 105 && t9 == 110 && t10 == 102
            && t11 == 111));
    }
    if t8 == 109 && t9 == 115 && t10 == 103 && t11 == 98 {
        match read_string(data, 12) {
            Ok(p) => ServerEvent::Notice(p.0),
            Err(_) => ServerEvent::Malformed,
        }
    } else if t8 == 109 && t9 == 101 && t10 == 110 && t11 == 117 {
        match read_user_at(data, 12) {
            Ok(p) => ServerEvent::Menu(p.0),
            Err(_) => ServerEvent::Malformed,
        }
    } else if t8 == 105 && t9 == 110 && t10 == 102 && t11 == 111 {
        if data.len() - 12 < 12 {
            return ServerEvent::Malformed;
        }
        let count = read_u32(data, 20);
        proof {
            assert(parse_u32_at(data@, 12) == Ok::<(u32, int), CodecError>(
                (be32_val(data@.subrange(12, 16)), 16),
            ));
            assert(parse_u32_at(data@, 16) == Ok::<(u32, int), CodecError>(
                (be32_val(data@.subrange(16, 20)), 20),
            ));
            assert(parse_u32_at(data@, 20) == Ok::<(u32, int), CodecError>((count, 24)));
        }
        let user = match read_user_at(data, 24) {
            Ok(p) => p,
            Err(_) => {
                return ServerEvent::Malformed;
            },
        };
        let ghost d = data@;
        let mut entries: Vec<TradeInfo> = Vec::new();
        let mut pos: usize = user.1;
        let mut k: u32 = 0;
        proof {
            let whole = parse_trades_at(d, user.1 as int, count as nat);
            if whole is Ok {
                let rs = whole.unwrap().0;
                assert(Seq::<TradeInfoView>::empty() + rs =~= rs);
            }
        }
        while k < count
            invariant
                k <= count,
                pos <= data.len(),
                entries@.len() == k,
                d == data@,
                parse_trades_at(d, user.1 as int, count as nat) == (match parse_trades_at(
                    d,
                    pos as int,
                    (count - k) as nat,
                ) {
                    Ok(rest) => Ok::<(Seq<TradeInfoView>, int), CodecError>(
                        (entries@.map_values(|t: TradeInfo| t@) + rest.0, rest.1),
                    ),
                    Err(e) => Err::<(Seq<TradeInfoView>, int), CodecError>(e),
                }),
            decreases count - k,
        {
            let next = match read_trade_at(data, pos) {
                Ok(p) => p,
                Err(_) => {
                    proof {
                        assert(parse_trades_at(d, pos as int, (count - k) as nat) is Err) by {
                            reveal(parse_trades_at);
                        }
                        assert(parse_trades_at(d, user.1 as int, count as nat) is Err);
                    }
                    return ServerEvent::Malformed;
                },
            };
            proof {
                let tv = next.0@;
                let evs = entries@.map_values(|t: TradeInfo| t@);
                assert(parse_trades_at(d, pos as int, (count - k) as nat) == (match parse_trades_at(
                    d,
                    next.1 as int,
                    (count - k - 1) as nat,
                ) {
                    Ok(rest) => Ok::<(Seq<TradeInfoView>, int), CodecError>(
                        (seq![tv] + rest.0, rest.1),
                    ),
                    Err(e) => Err::<(Seq<TradeInfoView>, int), CodecError>(e),
                })) by {
                    reveal(parse_trades_at);
                }
                let rem = parse_trades_at(d, next.1 as int, (count - k - 1) as nat);
                if rem is Ok {
                    let restseq = rem.unwrap().0;
                    assert(evs + (seq![tv] + restseq) =~= evs.push(tv) + restseq);
                }
            }
            let ghost before = entries@.map_values(|t: TradeInfo| t@);
            entries.push(next.0);
            pos = next.1;
            k = k + 1;
            proof {
                assert(entries@.map_values(|t: TradeInfo| t@) =~= before.push(next.0@));
            }
        }
        proof {
            assert(parse_trades_at(d, pos as int, 0) == Ok::<(Seq<TradeInfoView>, int), CodecError>(
                (Seq::empty(), pos as int),
            )) by {
                reveal(parse_trades_at);
            }
            assert(entries@.map_values(|t: TradeInfo| t@) + Seq::<TradeInfoView>::empty()
                =~= entries@.map_values(|t: TradeInfo| t@));
        }
        ServerEvent::Info(user.0, entries)
    } else {
        ServerEvent::Unknown
    }
}

impl Clone for TradeInfo {
    fn clone(&self) -> (r: Self)
        ensures
            r@ == self@,
    {
        TradeInfo {
            tid: self.tid,
            receiver: self.receiver,
            sender: self.sender.clone(),
            time_secs: self.time_secs,
            time_nanos: self.time_nanos,
            amount: self.amount,
        }
    }
}

/// True when `a` happened no later than `b`.
pub open spec fn time_le(a: TradeInfoView, b: TradeInfoView) -> bool {
    a.time_secs < b.time_secs || (a.time_secs == b.time_secs && a.time_nanos <= b.time_nanos)
}

/// True when the entries are in time order, oldest first.
pub open spec fn time_sorted(s: Seq<TradeInfoView>) -> bool {
    forall|i: int, j: int| 0 <= i < j < s.len() ==> time_le(#[trigger] s[i], #[trigger] s[j])
}

proof fn lemma_insert_multiset(s: Seq<TradeInfoView>, p: int, x: TradeInfoView)
    requires
        0 <= p <= s.len(),
    ensures
        s.insert(p, x).to_multiset() == s.to_multiset().insert(x),
    decreases s.len(),
{
    broadcast use vstd::seq_lib::group_to_multiset_ensures;

    let t = s.insert(p, x);
    assert(t.remove(p) =~= s);
    assert(t[p] == x);
    assert(t.contains(x));
    assert(t.to_multiset().remove(x) =~= s.to_multiset());
    assert(t.to_multiset().count(x) > 0);
    assert forall|y: TradeInfoView| true implies #[trigger] t.to_multiset().count(y)
        == s.to_multiset().insert(x).count(y) by {
        if y == x {
            assert(t.to_multiset().remove(x).count(x) == t.to_multiset().count(x) - 1);
        } else {
            assert(t.to_multiset().remove(x).count(y) == t.to_multiset().count(y));
        }
    }
    assert(t.to_multiset() =~= s.to_multiset().insert(x));
}

/// The history screen: the snapshot and the received entries, oldest
/// first.
pub struct InfoUi {
    pub user: User,
    pub info: Vec<TradeInfo>,
}

impl InfoUi {
    /// Takes a snapshot and received entries and keeps them sorted by
    /// time, oldest first; the entries themselves are exactly those given.
    #[verifier::loop_isolation(false)]
    pub fn new(user: User, info: Vec<TradeInfo>) -> (r: Self)
        ensures
            r.user@ == user@,
            time_sorted(r@),
            r@.to_multiset() == info@.map_values(|t: TradeInfo| t@).to_multiset(),
    {
        broadcast use vstd::seq_lib::group_to_multiset_ensures;

        let ghost inviews = info@.map_values(|t: TradeInfo| t@);
        let mut out: Vec<TradeInfo> = Vec::new();
        let mut i: usize = 0;
        proof {
            assert(Seq::<TradeInfoView>::empty().to_multiset() =~= inviews.take(
                0,
            ).to_multiset());
            assert(out@.map_values(|t: TradeInfo| t@) =~= Seq::<TradeInfoView>::empty());
        }
        while i < info.len()
            invariant
                i <= info@.len(),
                time_sorted(out@.map_values(|t: TradeInfo| t@)),
                out@.map_values(|t: TradeInfo| t@).to_multiset() == inviews.take(
                    i as int,
                ).to_multiset(),
            decreases info@.len() - i,
        {
            let item = info[i].clone();
            let ghost x = item@;
            let ghost outv = out@.map_values(|t: TradeInfo| t@);
            let mut p: usize = 0;
            while p < out.len()
                invariant
                    p <= out@.len(),
                    outv == out@.map_values(|t: TradeInfo| t@),
                    forall|q: int| 0 <= q < p ==> time_le(#[trigger] outv[q], x),
                decreases out@.len() - p,
            {
                let e = &out[p];
                if !(e.time_secs < item.time_secs || (e.time_secs == item.time_secs
                    && e.time_nanos <= item.time_nanos)) {
                    break;
                }
                p = p + 1;
            }
            proof {
                assert(p < outv.len() ==> !time_le(outv[p as int], x));
            }
            out.insert(p, item);
            proof {
                let newv = out@.map_values(|t: TradeInfo| t@);
                assert(newv =~= outv.insert(p as int, x));
                lemma_insert_multiset(outv, p as int, x);
                assert(inviews.take(i + 1) =~= inviews.take(i as int).push(x));
                assert(newv.to_multiset() =~= inviews.take(i + 1).to_multiset());
                assert forall|a: int, b: int| 0 <= a < b < newv.len() implies time_le(
                    #[trigger] newv[a],
                    #[trigger] newv[b],
                ) by {
                    if a < p && b > p {
                        assert(newv[a] == outv[a] && newv[b] == outv[b - 1]);
                    }
                }
            }
            i = i + 1;
        }
        proof {
            assert(inviews.take(inviews.len() as int) =~= inviews);
        }
        InfoUi { user, info: out }
    }

    /// The entries, oldest first.
    pub fn entries(&self) -> (r: &Vec<TradeInfo>)
        ensures
            r@.map_values(|t: TradeInfo| t@) == self@,
    {
        &self.info
    }
}

impl View for InfoUi {
    type V = Seq<TradeInfoView>;

    open spec fn view(&self) -> Seq<TradeInfoView> {
        self.info@.map_values(|t: TradeInfo| t@)
    }
}

} // verus!
