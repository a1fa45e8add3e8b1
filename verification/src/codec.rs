//! Wire primitives: big-endian fixed-width integers on byte buffers.
//!
//! Every multi-byte integer on the wire is big-endian and fixed width.
//! The spec functions below define the byte layout; the executable
//! functions are proved to match them exactly.

use vstd::prelude::*;

verus! {

use vstd::arithmetic::div_mod::{lemma_fundamental_div_mod, lemma_div_denominator, lemma_div_decreases};
use vstd::utf8::{valid_utf8, decode_utf8, encode_utf8, encode_scalar, is_ascii_chars, is_ascii_chars_concat, is_ascii_chars_encode_utf8, encode_utf8_valid_utf8, encode_utf8_decode_utf8, has_width_1_encoding, leading_byte_width_1};

/// Big-endian bytes of a 16-bit integer.
pub open spec fn spec_be16(n: u16) -> Seq<u8> {
    seq![(n / 0x100) as u8, (n % 0x100) as u8]
}

/// Big-endian bytes of a 32-bit integer.
pub open spec fn spec_be32(n: u32) -> Seq<u8> {
    seq![
        (n / 0x100_0000) as u8,
        ((n / 0x1_0000) % 0x100) as u8,
        ((n / 0x100) % 0x100) as u8,
        (n % 0x100) as u8,
    ]
}

/// Big-endian bytes of a 64-bit integer.
pub open spec fn spec_be64(n: u64) -> Seq<u8> {
    seq![
        (n / 0x100_0000_0000_0000) as u8,
        ((n / 0x1_0000_0000_0000) % 0x100) as u8,
        ((n / 0x100_0000_0000) % 0x100) as u8,
        ((n / 0x1_0000_0000) % 0x100) as u8,
        ((n / 0x100_0000) % 0x100) as u8,
        ((n / 0x1_0000) % 0x100) as u8,
        ((n / 0x100) % 0x100) as u8,
        (n % 0x100) as u8,
    ]
}

/// The 16-bit integer read big-endian from two bytes.
pub open spec fn be16_val(b: Seq<u8>) -> u16
    recommends
        b.len() == 2,
{
    (b[0] * 0x100 + b[1]) as u16
}

/// The 32-bit integer read big-endian from four bytes.
pub open spec fn be32_val(b: Seq<u8>) -> u32
    recommends
        b.len() == 4,
{
    (b[0] * 0x100_0000 + b[1] * 0x1_0000 + b[2] * 0x100 + b[3]) as u32
}

/// The 64-bit integer read big-endian from eight bytes.
pub open spec fn be64_val(b: Seq<u8>) -> u64
    recommends
        b.len() == 8,
{
    (b[0] * 0x100_0000_0000_0000 + b[1] * 0x1_0000_0000_0000 + b[2] * 0x100_0000_0000 + b[3]
        * 0x1_0000_0000 + b[4] * 0x100_0000 + b[5] * 0x1_0000 + b[6] * 0x100 + b[7]) as u64
}

/// Reading back the big-endian bytes of a 16-bit integer yields the integer.
pub proof fn lemma_be16_roundtrip(n: u16)
    ensures
        be16_val(spec_be16(n)) == n,
{
    lemma_fundamental_div_mod(n as int, 0x100);
}

/// Reading back the big-endian bytes of a 32-bit integer yields the integer.
pub proof fn lemma_be32_roundtrip(n: u32)
    ensures
        be32_val(spec_be32(n)) == n,
{
    let x = n as int;
    lemma_fundamental_div_mod(x, 0x100);
    lemma_fundamental_div_mod(x / 0x100, 0x100);
    lemma_fundamental_div_mod(x / 0x1_0000, 0x100);
    lemma_div_denominator(x, 0x100, 0x100);
    lemma_div_denominator(x, 0x1_0000, 0x100);
}

/// Reading back the big-endian bytes of a 64-bit integer yields the integer.
pub proof fn lemma_be64_roundtrip(n: u64)
    ensures
        be64_val(spec_be64(n)) == n,
{
    let x = n as int;
    lemma_fundamental_div_mod(x, 0x100);
    lemma_fundamental_div_mod(x / 0x100, 0x100);
    lemma_fundamental_div_mod(x / 0x1_0000, 0x100);
    lemma_fundamental_div_mod(x / 0x100_0000, 0x100);
    lemma_fundamental_div_mod(x / 0x1_0000_0000, 0x100);
    lemma_fundamental_div_mod(x / 0x100_0000_0000, 0x100);
    lemma_fundamental_div_mod(x / 0x1_0000_0000_0000, 0x100);
    lemma_div_denominator(x, 0x100, 0x100);
    lemma_div_denominator(x, 0x1_0000, 0x100);
    lemma_div_denominator(x, 0x100_0000, 0x100);
    lemma_div_denominator(x, 0x1_0000_0000, 0x100);
    lemma_div_denominator(x, 0x100_0000_0000, 0x100);
    lemma_div_denominator(x, 0x1_0000_0000_0000, 0x100);
}

/// Appends the two big-endian bytes of `n`.
pub fn write_u16(buf: &mut Vec<u8>, n: u16)
    ensures
        final(buf)@ == old(buf)@ + spec_be16(n),
{
    buf.push((n / 0x100) as u8);
    buf.push((n % 0x100) as u8);
    proof {
        assert(buf@ =~= old(buf)@ + spec_be16(n));
    }
}

/// Appends the four big-endian bytes of `n`.
pub fn write_u32(buf: &mut Vec<u8>, n: u32)
    ensures
        final(buf)@ == old(buf)@ + spec_be32(n),
{
    buf.push((n / 0x100_0000) as u8);
    buf.push(((n / 0x1_0000) % 0x100) as u8);
    buf.push(((n / 0x100) % 0x100) as u8);
    buf.push((n % 0x100) as u8);
    proof {
        assert(buf@ =~= old(buf)@ + spec_be32(n));
    }
}

/// Appends the eight big-endian bytes of `n`.
pub fn write_u64(buf: &mut Vec<u8>, n: u64)
    ensures
        final(buf)@ == old(buf)@ + spec_be64(n),
{
    buf.push((n / 0x100_0000_0000_0000) as u8);
    buf.push(((n / 0x1_0000_0000_0000) % 0x100) as u8);
    buf.push(((n / 0x100_0000_0000) % 0x100) as u8);
    buf.push(((n / 0x1_0000_0000) % 0x100) as u8);
    buf.push(((n / 0x100_0000) % 0x100) as u8);
    buf.push(((n / 0x1_0000) % 0x100) as u8);
    buf.push(((n / 0x100) % 0x100) as u8);
    buf.push((n % 0x100) as u8);
    proof {
        assert(buf@ =~= old(buf)@ + spec_be64(n));
    }
}

/// Reads a big-endian 16-bit integer at `pos`.
pub fn read_u16(data: &Vec<u8>, pos: usize) -> (r: u16)
    requires
        pos + 2 <= data.len(),
    ensures
        r == be16_val(data@.subrange(pos as int, pos as int + 2)),
{
    let b0 = data[pos] as u16;
    let b1 = data[pos + 1] as u16;
    b0 * 0x100 + b1
}

/// Reads a big-endian 32-bit integer at `pos`.
pub fn read_u32(data: &Vec<u8>, pos: usize) -> (r: u32)
    requires
        pos + 4 <= data.len(),
    ensures
        r == be32_val(data@.subrange(pos as int, pos as int + 4)),
{
    let b0 = data[pos] as u32;
    let b1 = data[pos + 1] as u32;
    let b2 = data[pos + 2] as u32;
    let b3 = data[pos + 3] as u32;
    b0 * 0x100_0000 + b1 * 0x1_0000 + b2 * 0x100 + b3
}

/// Reads a big-endian 64-bit integer at `pos`.
pub fn read_u64(data: &Vec<u8>, pos: usize) -> (r: u64)
    requires
        pos + 8 <= data.len(),
    ensures
        r == be64_val(data@.subrange(pos as int, pos as int + 8)),
{
    let b0 = data[pos] as u64;
    let b1 = data[pos + 1] as u64;
    let b2 = data[pos + 2] as u64;
    let b3 = data[pos + 3] as u64;
    let b4 = data[pos + 4] as u64;
    let b5 = data[pos + 5] as u64;
    let b6 = data[pos + 6] as u64;
    let b7 = data[pos + 7] as u64;
    b0 * 0x100_0000_0000_0000 + b1 * 0x1_0000_0000_0000 + b2 * 0x100_0000_0000 + b3
        * 0x1_0000_0000 + b4 * 0x100_0000 + b5 * 0x1_0000 + b6 * 0x100 + b7
}

/// The unsigned 32-bit pattern that carries a signed 32-bit value on the wire
/// (two's complement).
pub open spec fn i32_bits(v: i32) -> u32 {
    if v >= 0 {
        v as u32
    } else {
        (v + 0x1_0000_0000) as u32
    }
}

/// The signed 32-bit value carried by an unsigned 32-bit wire pattern
/// (two's complement).
pub open spec fn u32_as_i32(u: u32) -> i32 {
    if u <= 0x7fff_ffff {
        u as i32
    } else {
        (u - 0x1_0000_0000) as i32
    }
}

/// The unsigned 64-bit pattern that carries a signed 64-bit value on the wire
/// (two's complement).
pub open spec fn i64_bits(v: i64) -> u64 {
    if v >= 0 {
        v as u64
    } else {
        (v + 0x1_0000_0000_0000_0000) as u64
    }
}

/// The signed 64-bit value carried by an unsigned 64-bit wire pattern
/// (two's complement).
pub open spec fn u64_as_i64(u: u64) -> i64 {
    if u <= 0x7fff_ffff_ffff_ffff {
        u as i64
    } else {
        (u - 0x1_0000_0000_0000_0000) as i64
    }
}

/// A signed 32-bit value survives the trip through its wire pattern.
pub proof fn lemma_i32_roundtrip(v: i32)
    ensures
        u32_as_i32(i32_bits(v)) == v,
{
}

/// A signed 64-bit value survives the trip through its wire pattern.
pub proof fn lemma_i64_roundtrip(v: i64)
    ensures
        u64_as_i64(i64_bits(v)) == v,
{
}

/// Converts a signed 32-bit value to its wire pattern.
pub fn i32_to_wire(v: i32) -> (r: u32)
    ensures
        r == i32_bits(v),
{
    if v >= 0 {
        v as u32
    } else {
        ((v as i64) + 0x1_0000_0000) as u32
    }
}

/// Converts a wire pattern back to a signed 32-bit value.
pub fn wire_to_i32(u: u32) -> (r: i32)
    ensures
        r == u32_as_i32(u),
{
    if u <= 0x7fff_ffff {
        u as i32
    } else {
        ((u as i64) - 0x1_0000_0000) as i32
    }
}

/// Converts a signed 64-bit value to its wire pattern.
pub fn i64_to_wire(v: i64) -> (r: u64)
    ensures
        r == i64_bits(v),
{
    if v >= 0 {
        v as u64
    } else {
        ((v as i128) + 0x1_0000_0000_0000_0000) as u64
    }
}

/// Converts a wire pattern back to a signed 64-bit value.
pub fn wire_to_i64(u: u64) -> (r: i64)
    ensures
        r == u64_as_i64(u),
{
    if u <= 0x7fff_ffff_ffff_ffff {
        u as i64
    } else {
        ((u as i128) - 0x1_0000_0000_0000_0000) as i64
    }
}

/// Appends the four big-endian bytes of the wire pattern of `v`.
pub fn write_i32(buf: &mut Vec<u8>, v: i32)
    ensures
        final(buf)@ == old(buf)@ + spec_be32(i32_bits(v)),
{
    let u = i32_to_wire(v);
    write_u32(buf, u);
}

/// Appends the eight big-endian bytes of the wire pattern of `v`.
pub fn write_i64(buf: &mut Vec<u8>, v: i64)
    ensures
        final(buf)@ == old(buf)@ + spec_be64(i64_bits(v)),
{
    let u = i64_to_wire(v);
    write_u64(buf, u);
}

/// How reading a value from the wire can fail.
#[derive(Clone, Copy, Debug, PartialEq, Eq, Structural)]
pub enum CodecError {
    /// Fewer bytes remain than the format requires.
    Truncated,
    /// String bytes that are not valid UTF-8.
    InvalidEncoding,
    /// A string too long for its 16-bit length prefix.
    TooLong,
}

/// Appends the bytes of a slice, one for one.
fn extend_bytes(buf: &mut Vec<u8>, b: &[u8])
    ensures
        final(buf)@ == old(buf)@ + b@,
{
    let mut i: usize = 0;
    while i < b.len()
        invariant
            i <= b@.len(),
            buf@ == old(buf)@ + b@.subrange(0, i as int),
        decreases b@.len() - i,
    {
        buf.push(b[i]);
        proof {
            assert(buf@ =~= old(buf)@ + b@.subrange(0, i + 1));
        }
        i = i + 1;
    }
    proof {
        assert(b@.subrange(0, b@.len() as int) =~= b@);
    }
}

/// The wire form of a string: a 2-byte big-endian byte length followed by
/// the UTF-8 bytes.
pub open spec fn spec_string_wire(s: Seq<char>) -> Seq<u8>
    recommends
        encode_utf8(s).len() <= 0xffff,
{
    spec_be16(encode_utf8(s).len() as u16) + encode_utf8(s)
}

/// The UTF-8 encoding of a string is at least one and at most four bytes
/// per character.
pub proof fn lemma_encode_utf8_len(s: Seq<char>)
    ensures
        s.len() <= encode_utf8(s).len() <= 4 * s.len(),
    decreases s.len(),
{
    if s.len() == 0 {
    } else {
        lemma_encode_utf8_len(s.drop_first());
        assert(1 <= encode_scalar(s[0] as u32).len() <= 4);
    }
}

/// Appends the wire form of `s`, or fails without a change when the UTF-8
/// bytes of `s` do not fit a 16-bit length prefix.
pub fn write_string(buf: &mut Vec<u8>, s: &str) -> (r: Result<(), CodecError>)
    ensures
        r is Ok <==> encode_utf8(s@).len() <= 0xffff,
        4 * s@.len() <= 0xffff ==> r is Ok,
        r is Ok ==> final(buf)@ == old(buf)@ + spec_string_wire(s@),
        r is Err ==> final(buf)@ == old(buf)@ && r == Err::<(), CodecError>(CodecError::TooLong),
{
    proof {
        lemma_encode_utf8_len(s@);
    }
    let bytes = s.as_bytes();
    if bytes.len() > 0xffff {
        return Err(CodecError::TooLong);
    }
    write_u16(buf, bytes.len() as u16);
    extend_bytes(buf, bytes);
    proof {
        assert(buf@ =~= old(buf)@ + spec_string_wire(s@));
    }
    Ok(())
}

/// Relies on `String::from_utf8` from std: it returns the decoded string
/// exactly when the bytes are valid UTF-8, and the vstd functions
/// `valid_utf8` and `decode_utf8` define that encoding.
#[verifier::external_body]
fn bytes_to_string(v: Vec<u8>) -> (r: Option<String>)
    ensures
        r is Some <==> valid_utf8(v@),
        r is Some ==> r.unwrap()@ == decode_utf8(v@),
{
    String::from_utf8(v).ok()
}

/// What reading a length-prefixed string at `pos` yields: the decoded
/// characters and the position just past them, or the error the bytes force.
pub open spec fn parse_string_at(d: Seq<u8>, pos: int) -> Result<(Seq<char>, int), CodecError>
    recommends
        0 <= pos <= d.len(),
{
    if pos + 2 > d.len() {
        Err(CodecError::Truncated)
    } else {
        let strlen = be16_val(d.subrange(pos, pos + 2)) as int;
        if pos + 2 + strlen > d.len() {
            Err(CodecError::Truncated)
        } else {
            let bytes = d.subrange(pos + 2, pos + 2 + strlen);
            if valid_utf8(bytes) {
                Ok((decode_utf8(bytes), pos + 2 + strlen))
            } else {
                Err(CodecError::InvalidEncoding)
            }
        }
    }
}

/// Reads a length-prefixed UTF-8 string at `pos`, returning the string and
/// the position just past it.
pub fn read_string(data: &Vec<u8>, pos: usize) -> (r: Result<(String, usize), CodecError>)
    ensures
        match r {
            Ok(p) => parse_string_at(data@, pos as int) == Ok::<(Seq<char>, int), CodecError>(
                (p.0@, p.1 as int),
            ),
            Err(e) => parse_string_at(data@, pos as int) == Err::<(Seq<char>, int), CodecError>(e),
        },
{
    if data.len() < 2 || pos > data.len() - 2 {
        return Err(CodecError::Truncated);
    }
    let strlen = read_u16(data, pos) as usize;
    if data.len() - (pos + 2) < strlen {
        return Err(CodecError::Truncated);
    }
    let mut bytes: Vec<u8> = Vec::new();
    let mut i: usize = 0;
    while i < strlen
        invariant
            i <= strlen,
            pos + 2 + strlen <= data.len(),
            bytes@ == data@.subrange(pos + 2, pos + 2 + i),
        decreases strlen - i,
    {
        bytes.push(data[pos + 2 + i]);
        proof {
            assert(bytes@ =~= data@.subrange(pos + 2, pos + 2 + i + 1));
        }
        i = i + 1;
    }
    match bytes_to_string(bytes) {
        Some(s) => Ok((s, pos + 2 + strlen)),
        None => Err(CodecError::InvalidEncoding),
    }
}

/// The decimal digit character for `d`.
pub open spec fn dec_digit_char(d: int) -> char
    recommends
        0 <= d < 10,
{
    if d == 0 {
        '0'
    } else if d == 1 {
        '1'
    } else if d == 2 {
        '2'
    } else if d == 3 {
        '3'
    } else if d == 4 {
        '4'
    } else if d == 5 {
        '5'
    } else if d == 6 {
        '6'
    } else if d == 7 {
        '7'
    } else if d == 8 {
        '8'
    } else {
        '9'
    }
}

/// The decimal digit characters of `n`, most significant first, with no
/// leading zeros (a single `'0'` for zero).
pub open spec fn dec_chars(n: nat) -> Seq<char>
    decreases n,
{
    if n < 10 {
        seq![dec_digit_char(n as int)]
    } else {
        dec_chars(n / 10) + seq![dec_digit_char((n % 10) as int)]
    }
}

/// The decimal digit characters of `n` are ASCII.
pub proof fn lemma_dec_chars_ascii(n: nat)
    ensures
        is_ascii_chars(dec_chars(n)),
        dec_chars(n).len() >= 1,
    decreases n,
{
    if n < 10 {
    } else {
        lemma_dec_chars_ascii(n / 10);
        assert(dec_chars(n) == dec_chars(n / 10) + seq![dec_digit_char((n % 10) as int)]);
        is_ascii_chars_concat(
            dec_chars(n),
            dec_chars(n / 10),
            seq![dec_digit_char((n % 10) as int)],
        );
    }
}

/// The decimal digit character for `d` as an executable value.
fn dec_digit(d: u32) -> (r: u8)
    requires
        d < 10,
    ensures
        r < 0x80,
        (r as char) == dec_digit_char(d as int),
{
    let r: u8 = 48 + (d as u8);
    proof {
        if d == 0 {
            assert((r as char) == '0');
        } else if d == 1 {
            assert((r as char) == '1');
        } else if d == 2 {
            assert((r as char) == '2');
        } else if d == 3 {
            assert((r as char) == '3');
        } else if d == 4 {
            assert((r as char) == '4');
        } else if d == 5 {
            assert((r as char) == '5');
        } else if d == 6 {
            assert((r as char) == '6');
        } else if d == 7 {
            assert((r as char) == '7');
        } else if d == 8 {
            assert((r as char) == '8');
        } else {
            assert((r as char) == '9');
        }
    }
    r
}

/// Renders `n` in decimal, proved against [`dec_chars`].
pub fn u32_to_dec_string(n: u32) -> (r: String)
    ensures
        r@ == dec_chars(n as nat),
{
    let mut digits: Vec<u8> = Vec::new();
    let mut m: u32 = n;
    let ghost mut suffix: Seq<char> = Seq::empty();
    proof {
        assert(dec_chars(n as nat) =~= dec_chars(m as nat) + suffix);
    }
    while m >= 10
        invariant
            dec_chars(n as nat) == dec_chars(m as nat) + suffix,
            digits@.len() == suffix.len(),
            forall|j: int|
                0 <= j < digits@.len() ==> digits@[j] < 0x80 && (digits@[j] as char)
                    == suffix[suffix.len() - 1 - j],
        decreases m,
    {
        let d = dec_digit(m % 10);
        digits.push(d);
        proof {
            suffix = seq![dec_digit_char((m % 10) as int)] + suffix;
            assert(dec_chars(m as nat) == dec_chars((m as nat) / 10) + seq![
                dec_digit_char((m % 10) as int),
            ]);
            assert(dec_chars(n as nat) =~= dec_chars(((m / 10) as u32) as nat) + suffix);
            lemma_div_decreases(m as int, 10);
        }
        m = m / 10;
    }
    let d = dec_digit(m);
    digits.push(d);
    proof {
        suffix = seq![dec_digit_char(m as int)] + suffix;
        assert(dec_chars(n as nat) =~= suffix);
    }
    // Digits were gathered least significant first; emit them in reverse.
    let mut bytes: Vec<u8> = Vec::new();
    let total: usize = digits.len();
    let mut i: usize = 0;
    while i < total
        invariant
            i <= total,
            total == digits@.len(),
            total == suffix.len(),
            dec_chars(n as nat) == suffix,
            forall|j: int|
                0 <= j < digits@.len() ==> digits@[j] < 0x80 && (digits@[j] as char)
                    == suffix[suffix.len() - 1 - j],
            bytes@.len() == i,
            forall|j: int| 0 <= j < i ==> bytes@[j] == digits@[total - 1 - j],
        decreases total - i,
    {
        bytes.push(digits[total - 1 - i]);
        i = i + 1;
    }
    proof {
        lemma_dec_chars_ascii(n as nat);
        is_ascii_chars_encode_utf8(suffix);
        assert(bytes@ =~= encode_utf8(suffix));
        encode_utf8_valid_utf8(suffix);
        encode_utf8_decode_utf8(suffix);
    }
    match bytes_to_string(bytes) {
        Some(s) => s,
        None => {
            proof {
                assert(false);
            }
            String::new()
        },
    }
}

/// Ten to the `k`.
pub open spec fn spec_pow10(k: nat) -> nat
    decreases k,
{
    if k == 0 {
        1
    } else {
        10 * spec_pow10((k - 1) as nat)
    }
}

proof fn lemma_dec_chars_len_bound(n: nat, k: nat)
    requires
        k >= 1,
        n < spec_pow10(k),
    ensures
        dec_chars(n).len() <= k,
    decreases k,
{
    if n < 10 {
    } else {
        reveal_with_fuel(spec_pow10, 2);
        assert(spec_pow10(1) == 10);
        if k == 1 {
            assert(false);
        }
        let p = spec_pow10((k - 1) as nat);
        assert(spec_pow10(k) == 10 * p);
        assert(n / 10 < p) by (nonlinear_arith)
            requires
                n < 10 * p,
                p > 0,
        ;
        lemma_dec_chars_len_bound(n / 10, (k - 1) as nat);
    }
}

/// A 32-bit integer has at most ten decimal digits.
pub proof fn lemma_dec_chars_len_u32(n: u32)
    ensures
        dec_chars(n as nat).len() <= 10,
{
    reveal_with_fuel(spec_pow10, 11);
    assert(spec_pow10(10) == 10_000_000_000);
    lemma_dec_chars_len_bound(n as nat, 10);
}

/// True when `b` is the ASCII code of a decimal digit.
pub open spec fn is_dec_byte(b: u8) -> bool {
    48 <= b <= 57
}

/// True when `b` is one or more decimal digit bytes.
pub open spec fn all_dec_bytes(b: Seq<u8>) -> bool {
    b.len() > 0 && forall|i: int| 0 <= i < b.len() ==> is_dec_byte(#[trigger] b[i])
}

/// The number the digit bytes `b` denote, most significant first.
pub open spec fn dec_bytes_value(b: Seq<u8>) -> int
    recommends
        all_dec_bytes(b),
    decreases b.len(),
{
    if b.len() == 0 {
        0
    } else {
        dec_bytes_value(b.drop_last()) * 10 + (b.last() - 48)
    }
}

/// Reads an unsigned decimal number, proved against [`dec_bytes_value`]:
/// the result exists exactly when every byte of the string is a digit and
/// the value fits.
pub fn parse_dec_u64(s: &str) -> (r: Option<u64>)
    ensures
        r is Some <==> (all_dec_bytes(encode_utf8(s@)) && dec_bytes_value(encode_utf8(s@))
            <= u64::MAX),
        r is Some ==> r.unwrap() == dec_bytes_value(encode_utf8(s@)),
{
    let bytes = s.as_bytes();
    if bytes.len() == 0 {
        return None;
    }
    let mut acc: u128 = 0;
    let mut i: usize = 0;
    while i < bytes.len()
        invariant
            0 < bytes@.len(),
            i <= bytes@.len(),
            bytes@ == encode_utf8(s@),
            forall|j: int| 0 <= j < i ==> is_dec_byte(#[trigger] bytes@[j]),
            acc == if dec_bytes_value(bytes@.take(i as int)) <= u64::MAX {
                dec_bytes_value(bytes@.take(i as int))
            } else {
                u64::MAX + 1
            },
        decreases bytes@.len() - i,
    {
        let b = bytes[i];
        if b < 48 || b > 57 {
            return None;
        }
        let d = (b - 48) as u128;
        let grown: u128 = acc * 10 + d;
        proof {
            let t = bytes@.take(i + 1);
            assert(t.drop_last() =~= bytes@.take(i as int));
            assert(t.last() == bytes@[i as int]);
        }
        if grown > 0xffff_ffff_ffff_ffff {
            acc = 0x1_0000_0000_0000_0000;
        } else {
            acc = grown;
        }
        i = i + 1;
    }
    proof {
        assert(bytes@.take(bytes@.len() as int) =~= bytes@);
    }
    if acc > 0xffff_ffff_ffff_ffff {
        None
    } else {
        Some(acc as u64)
    }
}

/// Reads an unsigned 32-bit decimal number; the result exists exactly when
/// every byte is a digit and the value fits 32 bits.
pub fn parse_dec_u32(s: &str) -> (r: Option<u32>)
    ensures
        r is Some <==> (all_dec_bytes(encode_utf8(s@)) && dec_bytes_value(encode_utf8(s@))
            <= u32::MAX),
        r is Some ==> r.unwrap() == dec_bytes_value(encode_utf8(s@)),
{
    match parse_dec_u64(s) {
        Some(v) => {
            if v <= 0xffff_ffff {
                Some(v as u32)
            } else {
                None
            }
        },
        None => None,
    }
}

} // verus!
