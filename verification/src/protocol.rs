//! Packet layouts, request and response, as byte-level specifications with
//! verified builders.
//!
//! Client to server (after the header): a login body of exactly eight
//! bytes, a register body of more than eight, and, once authenticated,
//! an opcode byte followed by its fixed-width arguments.  Server to client:
//! a four-byte ASCII tag (`menu`, `msgb`, `errr`, `info`) followed by the
//! tagged fields.

use vstd::prelude::*;

verus! {

use crate::codec::{
    spec_be32,
    spec_be64,
    be32_val,
    i32_bits,
    i64_bits,
    spec_string_wire,
    write_u32,
    write_string,
    write_i32,
    write_i64,
    lemma_encode_utf8_len,
};
use crate::ext::{spec_magic, spec_header, add_fixed_header, CURRENT_VERSION};
use crate::ledger::{AccountView, TradeLogEntry, TradeView};

/// The account snapshot a session shows its peer: the stored account
/// without the credential.
pub struct User {
    pub id: u32,
    pub balance: u32,
    pub name: String,
    pub phone: String,
}

/// The mathematical value of a [`User`].
pub ghost struct UserView {
    pub id: u32,
    pub balance: u32,
    pub name: Seq<char>,
    pub phone: Seq<char>,
}

impl View for User {
    type V = UserView;

    open spec fn view(&self) -> UserView {
        UserView { id: self.id, balance: self.balance, name: self.name@, phone: self.phone@ }
    }
}

impl Clone for User {
    fn clone(&self) -> (r: Self)
        ensures
            r@ == self@,
    {
        User {
            id: self.id,
            balance: self.balance,
            name: self.name.clone(),
            phone: self.phone.clone(),
        }
    }
}

/// The snapshot an account presents.
pub open spec fn user_of_acct(a: AccountView) -> UserView {
    UserView { id: a.id, balance: a.balance, name: a.name, phone: a.phone }
}

/// A user snapshot short enough for the wire: the same bounds the store
/// keeps for every account.
pub open spec fn user_fits(u: UserView) -> bool {
    u.name.len() <= 60 && u.phone.len() <= 20
}

/// True when `d` opens with the magic bytes and the current version.
pub open spec fn spec_valid_frame(d: Seq<u8>) -> bool {
    d.len() >= 8 && d.subrange(0, 4) == spec_magic() && be32_val(d.subrange(4, 8))
        == CURRENT_VERSION
}

/// The body of a framed packet: everything after the eight header bytes.
pub open spec fn frame_body(d: Seq<u8>) -> Seq<u8>
    recommends
        spec_valid_frame(d),
{
    d.subrange(8, d.len() as int)
}

/// Checks the fixed header: length, magic bytes, version.
pub fn check_frame(data: &Vec<u8>) -> (r: bool)
    ensures
        r == spec_valid_frame(data@),
{
    if data.len() < 8 {
        return false;
    }
    let magic_ok = data[0] == 114 && data[1] == 80 && data[2] == 116 && data[3] == 109;
    proof {
        assert(magic_ok == (data@.subrange(0, 4) =~= spec_magic()));
    }
    if !magic_ok {
        return false;
    }
    let version = crate::codec::read_u32(data, 4);
    version == CURRENT_VERSION
}

/// The tag bytes `menu`.
pub open spec fn tag_menu() -> Seq<u8> {
    seq![109u8, 101u8, 110u8, 117u8]
}

/// The tag bytes `msgb`.
pub open spec fn tag_msgb() -> Seq<u8> {
    seq![109u8, 115u8, 103u8, 98u8]
}

/// The tag bytes `errr`.
pub open spec fn tag_errr() -> Seq<u8> {
    seq![101u8, 114u8, 114u8, 114u8]
}

/// The tag bytes `info`.
pub open spec fn tag_info() -> Seq<u8> {
    seq![105u8, 110u8, 102u8, 111u8]
}

/// The user fields shared by `menu` and `info` bodies.
pub open spec fn user_fields(u: UserView) -> Seq<u8> {
    spec_be32(u.id) + spec_string_wire(u.name) + spec_be32(u.balance) + spec_string_wire(u.phone)
}

/// A complete `menu` packet for the given snapshot.
pub open spec fn menu_packet_bytes(u: UserView) -> Seq<u8> {
    spec_header() + tag_menu() + user_fields(u)
}

/// A complete `msgb` packet carrying a recoverable notice.
pub open spec fn msgb_packet_bytes(m: Seq<char>) -> Seq<u8> {
    spec_header() + tag_msgb() + spec_string_wire(m)
}

/// A complete `errr` packet carrying a fatal reason.
pub open spec fn errr_packet_bytes(m: Seq<char>) -> Seq<u8> {
    spec_header() + tag_errr() + spec_string_wire(m)
}

/// The fields of one trade-log entry inside an `info` body.
pub open spec fn trade_fields(e: TradeView) -> Seq<u8> {
    spec_be32(i32_bits(e.tid)) + spec_be32(e.receiver) + spec_string_wire(e.sender) + spec_be64(
        i64_bits(e.time_secs),
    ) + spec_be32(e.time_nanos) + spec_be32(i32_bits(e.amount))
}

/// The concatenated fields of a sequence of trade-log entries.
pub open spec fn info_entries(es: Seq<TradeView>) -> Seq<u8>
    decreases es.len(),
{
    if es.len() == 0 {
        Seq::empty()
    } else {
        info_entries(es.drop_last()) + trade_fields(es.last())
    }
}

/// A complete `info` packet: one page holding the user summary and every
/// entry, the record count truncated to 32 bits.
pub open spec fn info_packet_bytes(u: UserView, es: Seq<TradeView>) -> Seq<u8> {
    spec_header() + tag_info() + spec_be32(1) + spec_be32(1) + spec_be32(
        (es.len() % 0x1_0000_0000) as u32,
    ) + user_fields(u) + info_entries(es)
}

/// Writes a string that the caller knows fits the length prefix.
fn write_short_string(buf: &mut Vec<u8>, s: &str)
    requires
        s@.len() <= 0x3fff,
    ensures
        final(buf)@ == old(buf)@ + spec_string_wire(s@),
{
    proof {
        lemma_encode_utf8_len(s@);
    }
    let r = write_string(buf, s);
    match r {
        Ok(_) => (),
        Err(_) => {
            proof {
                assert(false);
            }
        },
    }
}

/// Appends the four `menu`/`info` user fields.
fn write_user_fields(buf: &mut Vec<u8>, u: &User)
    requires
        user_fits(u@),
    ensures
        final(buf)@ == old(buf)@ + user_fields(u@),
{
    write_u32(buf, u.id);
    write_short_string(buf, self_name(u));
    write_u32(buf, u.balance);
    write_short_string(buf, self_phone(u));
    proof {
        assert(buf@ =~= old(buf)@ + user_fields(u@));
    }
}

/// The name field as a string slice.
fn self_name(u: &User) -> (r: &str)
    ensures
        r@ == u@.name,
{
    u.name.as_str()
}

/// The phone field as a string slice.
fn self_phone(u: &User) -> (r: &str)
    ensures
        r@ == u@.phone,
{
    u.phone.as_str()
}

/// Builds the `menu` packet for a snapshot.
pub fn build_menu_packet(u: &User) -> (r: Vec<u8>)
    requires
        user_fits(u@),
    ensures
        r@ == menu_packet_bytes(u@),
{
    let mut buf: Vec<u8> = Vec::new();
    add_fixed_header(&mut buf);
    buf.push(109);
    buf.push(101);
    buf.push(110);
    buf.push(117);
    proof {
        assert(buf@ =~= spec_header() + tag_menu());
    }
    write_user_fields(&mut buf, u);
    proof {
        assert(buf@ =~= menu_packet_bytes(u@));
    }
    buf
}

/// Builds the `msgb` packet for a recoverable notice.
pub fn build_msgb_packet(m: &str) -> (r: Vec<u8>)
    requires
        m@.len() <= 0x3fff,
    ensures
        r@ == msgb_packet_bytes(m@),
{
    let mut buf: Vec<u8> = Vec::new();
    add_fixed_header(&mut buf);
    buf.push(109);
    buf.push(115);
    buf.push(103);
    buf.push(98);
    proof {
        assert(buf@ =~= spec_header() + tag_msgb());
    }
    write_short_string(&mut buf, m);
    proof {
        assert(buf@ =~= msgb_packet_bytes(m@));
    }
    buf
}

/// Builds the `errr` packet for a fatal reason.
pub fn build_errr_packet(m: &str) -> (r: Vec<u8>)
    requires
        m@.len() <= 0x3fff,
    ensures
        r@ == errr_packet_bytes(m@),
{
    let mut buf: Vec<u8> = Vec::new();
    add_fixed_header(&mut buf);
    buf.push(101);
    buf.push(114);
    buf.push(114);
    buf.push(114);
    proof {
        assert(buf@ =~= spec_header() + tag_errr());
    }
    write_short_string(&mut buf, m);
    proof {
        assert(buf@ =~= errr_packet_bytes(m@));
    }
    buf
}

/// Builds the `info` packet: the user summary and every entry of `es`.
pub fn build_info_packet(u: &User, es: &Vec<TradeLogEntry>) -> (r: Vec<u8>)
    requires
        user_fits(u@),
        forall|j: int| 0 <= j < es@.len() ==> (#[trigger] es@[j])@.sender.len() <= 16,
    ensures
        r@ == info_packet_bytes(u@, es@.map_values(|e: TradeLogEntry| e@)),
{
    let ghost views = es@.map_values(|e: TradeLogEntry| e@);
    let mut buf: Vec<u8> = Vec::new();
    add_fixed_header(&mut buf);
    buf.push(105);
    buf.push(110);
    buf.push(102);
    buf.push(111);
    write_u32(&mut buf, 1);
    write_u32(&mut buf, 1);
    let count: u32 = ((es.len() as u64) % 0x1_0000_0000) as u32;
    write_u32(&mut buf, count);
    write_user_fields(&mut buf, u);
    let ghost head = spec_header() + tag_info() + spec_be32(1) + spec_be32(1) + spec_be32(
        (views.len() % 0x1_0000_0000) as u32,
    ) + user_fields(u@);
    proof {
        assert(buf@ =~= head);
    }
    let mut i: usize = 0;
    while i < es.len()
        invariant
            i <= es@.len(),
            views == es@.map_values(|e: TradeLogEntry| e@),
            forall|j: int| 0 <= j < es@.len() ==> (#[trigger] es@[j])@.sender.len() <= 16,
            user_fits(u@),
            buf@ == head + info_entries(views.take(i as int)),
        decreases es@.len() - i,
    {
        let e = &es[i];
        write_i32(&mut buf, e.tid);
        write_u32(&mut buf, e.receiver);
        write_short_string(&mut buf, e.sender.as_str());
        write_i64(&mut buf, e.time_secs);
        write_u32(&mut buf, e.time_nanos);
        write_i32(&mut buf, e.amount);
        proof {
            let t = views.take(i + 1);
            assert(t.drop_last() =~= views.take(i as int));
            assert(t.last() == views[i as int]);
            assert(buf@ =~= head + info_entries(views.take(i + 1)));
        }
        i = i + 1;
    }
    proof {
        assert(views.take(views.len() as int) =~= views);
        assert(buf@ =~= info_packet_bytes(u@, views));
    }
    buf
}

/// A complete login request.
pub open spec fn login_packet_bytes(id: u32, credential: i32) -> Seq<u8> {
    spec_header() + spec_be32(id) + spec_be32(i32_bits(credential))
}

/// A complete register request.
pub open spec fn register_packet_bytes(
    id: u32,
    credential: i32,
    name: Seq<char>,
    phone: Seq<char>,
) -> Seq<u8> {
    spec_header() + spec_be32(id) + spec_be32(i32_bits(credential)) + spec_string_wire(name)
        + spec_string_wire(phone)
}

/// A complete deposit request.
pub open spec fn deposit_packet_bytes(amount: u32) -> Seq<u8> {
    spec_header() + seq![0u8] + spec_be32(amount)
}

/// A complete withdraw request.
pub open spec fn withdraw_packet_bytes(amount: u32) -> Seq<u8> {
    spec_header() + seq![1u8] + spec_be32(amount)
}

/// A complete transfer request.
pub open spec fn transfer_packet_bytes(target: u32, amount: u32) -> Seq<u8> {
    spec_header() + seq![2u8] + spec_be32(target) + spec_be32(amount)
}

/// A complete history request.
pub open spec fn history_packet_bytes() -> Seq<u8> {
    spec_header() + seq![3u8]
}

/// Builds a login request.
pub fn build_login_packet(id: u32, credential: i32) -> (r: Vec<u8>)
    ensures
        r@ == login_packet_bytes(id, credential),
{
    let mut buf: Vec<u8> = Vec::new();
    add_fixed_header(&mut buf);
    write_u32(&mut buf, id);
    write_i32(&mut buf, credential);
    proof {
        assert(buf@ =~= login_packet_bytes(id, credential));
    }
    buf
}

/// Builds a register request.
pub fn build_register_packet(id: u32, credential: i32, name: &str, phone: &str) -> (r: Vec<u8>)
    requires
        name@.len() <= 0x3fff,
        phone@.len() <= 0x3fff,
    ensures
        r@ == register_packet_bytes(id, credential, name@, phone@),
{
    let mut buf: Vec<u8> = Vec::new();
    add_fixed_header(&mut buf);
    write_u32(&mut buf, id);
    write_i32(&mut buf, credential);
    write_short_string(&mut buf, name);
    write_short_string(&mut buf, phone);
    proof {
        assert(buf@ =~= register_packet_bytes(id, credential, name@, phone@));
    }
    buf
}

/// Builds a deposit request.
pub fn build_deposit_packet(amount: u32) -> (r: Vec<u8>)
    ensures
        r@ == deposit_packet_bytes(amount),
{
    let mut buf: Vec<u8> = Vec::new();
    add_fixed_header(&mut buf);
    buf.push(0);
    write_u32(&mut buf, amount);
    proof {
        assert(buf@ =~= deposit_packet_bytes(amount));
    }
    buf
}

/// Builds a withdraw request.
pub fn build_withdraw_packet(amount: u32) -> (r: Vec<u8>)
    ensures
        r@ == withdraw_packet_bytes(amount),
{
    let mut buf: Vec<u8> = Vec::new();
    add_fixed_header(&mut buf);
    buf.push(1);
    write_u32(&mut buf, amount);
    proof {
        assert(buf@ =~= withdraw_packet_bytes(amount));
    }
    buf
}

/// Builds a transfer request.
pub fn build_transfer_packet(target: u32, amount: u32) -> (r: Vec<u8>)
    ensures
        r@ == transfer_packet_bytes(target, amount),
{
    let mut buf: Vec<u8> = Vec::new();
    add_fixed_header(&mut buf);
    buf.push(2);
    write_u32(&mut buf, target);
    write_u32(&mut buf, amount);
    proof {
        assert(buf@ =~= transfer_packet_bytes(target, amount));
    }
    buf
}

/// Builds a history request.
pub fn build_history_packet() -> (r: Vec<u8>)
    ensures
        r@ == history_packet_bytes(),
{
    let mut buf: Vec<u8> = Vec::new();
    add_fixed_header(&mut buf);
    buf.push(3);
    proof {
        assert(buf@ =~= history_packet_bytes());
    }
    buf
}

} // verus!
