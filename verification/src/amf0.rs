//! AMF0, the value encoding of RTMP command messages.
//!
//! Numbers are IEEE-754 doubles on the wire. They are carried here as the
//! 64 bits of that representation, so that no floating-point arithmetic is
//! involved in framing them.

use crate::wire::{
    append_bytes, be16, be64, push_u16, push_u64, read_u16_be, read_u64_be, u16_of, u64_of,
};
use vstd::prelude::*;
use vstd::slice::{slice_subrange, slice_to_vec};
use vstd::string::StringSliceAdditionalSpecFns;

verus! {

/// Marker of a number.
pub const MARKER_NUMBER: u8 = 0x00;

/// Marker of a boolean.
pub const MARKER_BOOLEAN: u8 = 0x01;

/// Marker of a string.
pub const MARKER_STRING: u8 = 0x02;

/// Marker of an object.
pub const MARKER_OBJECT: u8 = 0x03;

/// Marker of null.
pub const MARKER_NULL: u8 = 0x05;

/// Marker of an ECMA array.
pub const MARKER_ECMA_ARRAY: u8 = 0x08;

/// Marker that, after an empty key, closes an object.
pub const MARKER_OBJECT_END: u8 = 0x09;

/// An AMF0 string: marker 2, the length in 16 bits, the bytes. Only the low
/// 16 bits of the length are written.
pub open spec fn amf_string(s: Seq<u8>) -> Seq<u8> {
    seq![MARKER_STRING] + be16(s.len() as int) + s
}

/// An AMF0 number: marker 0 and the eight bytes of the double.
pub open spec fn amf_number(bits: u64) -> Seq<u8> {
    seq![MARKER_NUMBER] + be64(bits)
}

/// One property of an AMF0 object: the key with its 16-bit length and no
/// marker, then the encoded value.
pub open spec fn amf_property(key: Seq<u8>, value: Seq<u8>) -> Seq<u8> {
    be16(key.len() as int) + key + value
}

/// The three bytes that close an AMF0 object.
pub open spec fn amf_object_end() -> Seq<u8> {
    seq![0u8, 0u8, MARKER_OBJECT_END]
}

/// Appends `s` as an AMF0 string.
pub fn amf_str(buf: &mut Vec<u8>, s: &str)
    ensures
        final(buf)@ == old(buf)@ + amf_string(s.spec_bytes()),
{
    let bytes = s.as_bytes();
    buf.push(MARKER_STRING);
    push_u16(buf, bytes.len());
    append_bytes(buf, bytes);
}

/// Appends the double whose bits are `bits` as an AMF0 number.
pub fn amf_num(buf: &mut Vec<u8>, bits: u64)
    ensures
        final(buf)@ == old(buf)@ + amf_number(bits),
{
    buf.push(MARKER_NUMBER);
    push_u64(buf, bits);
}

/// Appends an object property whose value is the string `val`.
pub fn amf_prop_str(buf: &mut Vec<u8>, key: &str, val: &str)
    ensures
        final(buf)@ == old(buf)@ + amf_property(key.spec_bytes(), amf_string(val.spec_bytes())),
{
    let k = key.as_bytes();
    push_u16(buf, k.len());
    append_bytes(buf, k);
    amf_str(buf, val);
}

/// Appends an object property whose value is the double with bits `bits`.
pub fn amf_prop_num(buf: &mut Vec<u8>, key: &str, bits: u64)
    ensures
        final(buf)@ == old(buf)@ + amf_property(key.spec_bytes(), amf_number(bits)),
{
    let k = key.as_bytes();
    push_u16(buf, k.len());
    append_bytes(buf, k);
    amf_num(buf, bits);
}

/// The head of a command message: its name and its transaction id.
#[derive(Debug, Clone, PartialEq, Eq)]
pub struct CommandHeader {
    /// The bytes of the command name, as they stood on the wire.
    pub name: Vec<u8>,
    /// The bits of the transaction id, a double.
    pub transaction_id: u64,
}

/// What stands at the head of a command message: a string, the name, and
/// after it a number, the transaction id. `None` unless the message opens
/// with a whole string. Where no whole number follows the name, the
/// transaction id is the double zero. What follows is not looked at.
pub open spec fn command_header(data: Seq<u8>) -> Option<(Seq<u8>, u64)> {
    if data.len() < 3 || data[0] != MARKER_STRING {
        None
    } else {
        let len = u16_of(data[1], data[2]);
        let p = 3 + len;
        if data.len() < p {
            None
        } else if data.len() >= p + 9 && data[p] == MARKER_NUMBER {
            Some((data.subrange(3, p), u64_of(data.subrange(p + 1, p + 9)) as u64))
        } else {
            Some((data.subrange(3, p), 0u64))
        }
    }
}

/// Reads the name and the transaction id at the head of a command message.
pub fn parse_cmd_header(data: &[u8]) -> (r: Option<CommandHeader>)
    ensures
        match r {
            Some(h) => command_header(data@) == Some((h.name@, h.transaction_id)),
            None => command_header(data@) is None,
        },
{
    if data.len() < 1 || data[0] != MARKER_STRING {
        return None;
    }
    if data.len() < 3 {
        return None;
    }
    let len = read_u16_be(slice_subrange(data, 1, 3));
    if data.len() - 3 < len {
        return None;
    }
    let p = 3 + len;
    let name = slice_to_vec(slice_subrange(data, 3, p));
    let transaction_id = if p < data.len() && data[p] == MARKER_NUMBER && data.len() - p >= 9 {
        read_u64_be(slice_subrange(data, p + 1, p + 9))
    } else {
        0
    };
    Some(CommandHeader { name, transaction_id })
}

} // verus!
