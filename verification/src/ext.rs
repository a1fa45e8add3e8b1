//! Buffer extension traits for the packet format.
//!
//! Every packet opens with four fixed magic bytes and a big-endian protocol
//! version.  Strings travel as a 2-byte big-endian byte length followed by
//! UTF-8 bytes.

use vstd::prelude::*;

verus! {

use crate::codec::{
    spec_be32,
    spec_string_wire,
    parse_string_at,
    write_u32,
    write_string,
    read_string,
    CodecError,
};
use vstd::utf8::encode_utf8;

/// The protocol version this crate speaks.
pub const CURRENT_VERSION: u32 = 0;

/// The four magic bytes that open every packet: `r`, `P`, `t`, `m`.
pub open spec fn spec_magic() -> Seq<u8> {
    seq![114u8, 80u8, 116u8, 109u8]
}

/// The fixed eight-byte packet header: magic bytes, then the big-endian
/// protocol version.
pub open spec fn spec_header() -> Seq<u8> {
    spec_magic() + spec_be32(CURRENT_VERSION)
}

/// Appends the fixed magic bytes and the protocol version.
pub fn add_fixed_header(vec: &mut Vec<u8>)
    ensures
        final(vec)@ == old(vec)@ + spec_header(),
{
    vec.push(114);
    vec.push(80);
    vec.push(116);
    vec.push(109);
    write_u32(vec, CURRENT_VERSION);
    proof {
        assert(vec@ =~= old(vec)@ + spec_header());
    }
}

/// Writing the packet header and wire-format strings into a byte buffer.
pub trait PacketWriteExt {
    /// Appends the fixed packet header.
    fn add_header(&mut self);

    /// Appends the wire form of a string; fails when its UTF-8 bytes exceed
    /// the 16-bit length prefix.
    fn write_string(&mut self, s: &str) -> Result<(), CodecError>;
}

impl PacketWriteExt for Vec<u8> {
    fn add_header(&mut self)
        ensures
            final(self)@ == old(self)@ + spec_header(),
    {
        add_fixed_header(self);
    }

    fn write_string(&mut self, s: &str) -> (r: Result<(), CodecError>)
        ensures
            r is Ok <==> encode_utf8(s@).len() <= 0xffff,
            r is Ok ==> final(self)@ == old(self)@ + spec_string_wire(s@),
            r is Err ==> final(self)@ == old(self)@,
    {
        write_string(self, s)
    }
}

/// Reading wire-format strings out of a byte buffer.
pub trait PacketReadExt {
    /// Reads a length-prefixed string at `*pos` and advances `*pos` past it.
    fn read_packet_string(&self, pos: &mut usize) -> Result<String, CodecError>;
}

impl PacketReadExt for Vec<u8> {
    fn read_packet_string(&self, pos: &mut usize) -> (r: Result<String, CodecError>)
        ensures
            match r {
                Ok(s) => parse_string_at(self@, *old(pos) as int) == Ok::<(Seq<char>, int),
                    CodecError,
                >((s@, *final(pos) as int)) && *final(pos) <= self@.len(),
                Err(e) => parse_string_at(self@, *old(pos) as int) == Err::<(Seq<char>, int),
                    CodecError,
                >(e) && *final(pos) == *old(pos),
            },
    {
        match read_string(self, *pos) {
            Ok((s, np)) => {
                *pos = np;
                Ok(s)
            },
            Err(e) => Err(e),
        }
    }
}

} // verus!
