use bank_protocol::codec::{
    i32_to_wire, i64_to_wire, parse_dec_u32, parse_dec_u64, read_string, read_u16, read_u32,
    read_u64, u32_to_dec_string, wire_to_i32, wire_to_i64, write_i32, write_i64, write_string,
    write_u16, write_u32, write_u64, CodecError,
};
use bank_protocol::ext::{add_fixed_header, PacketReadExt, PacketWriteExt};

#[test]
fn be16_roundtrip() {
    let mut buf: Vec<u8> = Vec::new();
    write_u16(&mut buf, 0xabcd);
    assert_eq!(buf, vec![0xab, 0xcd]);
    assert_eq!(read_u16(&buf, 0), 0xabcd);
}

#[test]
fn be32_roundtrip() {
    let mut buf: Vec<u8> = Vec::new();
    write_u32(&mut buf, 0x01020304);
    assert_eq!(buf, vec![1, 2, 3, 4]);
    assert_eq!(read_u32(&buf, 0), 0x01020304);
    buf.clear();
    write_u32(&mut buf, u32::MAX);
    assert_eq!(buf, vec![0xff, 0xff, 0xff, 0xff]);
    assert_eq!(read_u32(&buf, 0), u32::MAX);
}

#[test]
fn be64_roundtrip() {
    let mut buf: Vec<u8> = Vec::new();
    write_u64(&mut buf, 0x0102030405060708);
    assert_eq!(buf, vec![1, 2, 3, 4, 5, 6, 7, 8]);
    assert_eq!(read_u64(&buf, 0), 0x0102030405060708);
}

#[test]
fn signed_wire_roundtrip() {
    assert_eq!(i32_to_wire(-1), 0xffff_ffff);
    assert_eq!(wire_to_i32(0xffff_ffff), -1);
    assert_eq!(wire_to_i32(i32_to_wire(-200)), -200);
    assert_eq!(wire_to_i32(i32_to_wire(i32::MIN)), i32::MIN);
    assert_eq!(wire_to_i64(i64_to_wire(-1)), -1);
    assert_eq!(wire_to_i64(i64_to_wire(i64::MIN)), i64::MIN);
    let mut buf: Vec<u8> = Vec::new();
    write_i32(&mut buf, -2);
    assert_eq!(buf, vec![0xff, 0xff, 0xff, 0xfe]);
    buf.clear();
    write_i64(&mut buf, -2);
    assert_eq!(buf, vec![0xff, 0xff, 0xff, 0xff, 0xff, 0xff, 0xff, 0xfe]);
}

#[test]
fn string_wire_roundtrip() {
    let mut buf: Vec<u8> = Vec::new();
    assert!(write_string(&mut buf, "héllo").is_ok());
    // 2-byte length prefix, then UTF-8 bytes ('é' takes two bytes).
    assert_eq!(buf[0], 0);
    assert_eq!(buf[1], 6);
    let (s, next) = read_string(&buf, 0).unwrap();
    assert_eq!(s, "héllo");
    assert_eq!(next, buf.len());
}

#[test]
fn string_wire_too_long() {
    let mut buf: Vec<u8> = Vec::new();
    let long = "x".repeat(70000);
    assert_eq!(write_string(&mut buf, &long), Err(CodecError::TooLong));
    assert!(buf.is_empty());
}

#[test]
fn read_string_truncated() {
    // Declared length 5, only 2 bytes follow.
    let buf = vec![0u8, 5, b'a', b'b'];
    assert_eq!(read_string(&buf, 0), Err(CodecError::Truncated));
    assert_eq!(read_string(&vec![7u8], 0), Err(CodecError::Truncated));
}

#[test]
fn read_string_invalid_encoding() {
    let buf = vec![0u8, 2, 0xff, 0xff];
    assert_eq!(read_string(&buf, 0), Err(CodecError::InvalidEncoding));
}

#[test]
fn packet_ext_traits() {
    let mut buf: Vec<u8> = Vec::new();
    buf.add_header();
    assert_eq!(&buf[0..4], b"rPtm");
    assert_eq!(&buf[4..8], &[0, 0, 0, 0]);
    buf.write_string("ab").unwrap();
    let mut pos: usize = 8;
    let s = buf.read_packet_string(&mut pos).unwrap();
    assert_eq!(s, "ab");
    assert_eq!(pos, buf.len());

    let mut other: Vec<u8> = Vec::new();
    add_fixed_header(&mut other);
    assert_eq!(&other[..], &buf[0..8]);
}

#[test]
fn decimal_rendering() {
    assert_eq!(u32_to_dec_string(0), "0");
    assert_eq!(u32_to_dec_string(7), "7");
    assert_eq!(u32_to_dec_string(1001), "1001");
    assert_eq!(u32_to_dec_string(u32::MAX), "4294967295");
}

#[test]
fn decimal_parsing() {
    assert_eq!(parse_dec_u64("0"), Some(0));
    assert_eq!(parse_dec_u64("007"), Some(7));
    assert_eq!(parse_dec_u64("18446744073709551615"), Some(u64::MAX));
    assert_eq!(parse_dec_u64("18446744073709551616"), None);
    assert_eq!(parse_dec_u64("99999999999999999999999"), None);
    assert_eq!(parse_dec_u64(""), None);
    assert_eq!(parse_dec_u64("12a"), None);
    assert_eq!(parse_dec_u64("-3"), None);
    assert_eq!(parse_dec_u32("4294967295"), Some(u32::MAX));
    assert_eq!(parse_dec_u32("4294967296"), None);
    assert_eq!(parse_dec_u32("1001"), Some(1001));
}
