//! Fixed-width integers on the wire: how 24- and 32-bit values are laid out
//! as bytes, and how they are read back.

use crate::bytebuf::{be32, buf_put_u8, pending};
use bytes::BytesMut;
use vstd::prelude::*;

verus! {

/// The four bytes of `n`, least significant first.
pub open spec fn le32(n: u32) -> Seq<u8> {
    seq![
        (n as int % 0x100) as u8,
        (n as int / 0x100 % 0x100) as u8,
        (n as int / 0x1_0000 % 0x100) as u8,
        (n as int / 0x100_0000) as u8,
    ]
}

/// The low 24 bits of `n` as three bytes, most significant first.
pub open spec fn be24(n: int) -> Seq<u8> {
    seq![(n / 0x1_0000 % 0x100) as u8, (n / 0x100 % 0x100) as u8, (n % 0x100) as u8]
}

/// The low 16 bits of `n` as two bytes, most significant first.
pub open spec fn be16(n: int) -> Seq<u8> {
    seq![(n / 0x100 % 0x100) as u8, (n % 0x100) as u8]
}

/// The eight bytes of `n`, most significant first.
pub open spec fn be64(n: u64) -> Seq<u8> {
    seq![
        (n as int / 0x100_0000_0000_0000) as u8,
        (n as int / 0x1_0000_0000_0000 % 0x100) as u8,
        (n as int / 0x100_0000_0000 % 0x100) as u8,
        (n as int / 0x1_0000_0000 % 0x100) as u8,
        (n as int / 0x100_0000 % 0x100) as u8,
        (n as int / 0x1_0000 % 0x100) as u8,
        (n as int / 0x100 % 0x100) as u8,
        (n as int % 0x100) as u8,
    ]
}

/// The number that two bytes spell, most significant first.
pub open spec fn u16_of(b0: u8, b1: u8) -> int {
    b0 as int * 0x100 + b1 as int
}

/// The number that eight bytes spell, most significant first.
pub open spec fn u64_of(b: Seq<u8>) -> int {
    b[0] as int * 0x100_0000_0000_0000 + b[1] as int * 0x1_0000_0000_0000 + b[2] as int
        * 0x100_0000_0000 + b[3] as int * 0x1_0000_0000 + b[4] as int * 0x100_0000 + b[5] as int
        * 0x1_0000 + b[6] as int * 0x100 + b[7] as int
}

/// The number that three bytes spell, most significant first.
pub open spec fn u24_of(b0: u8, b1: u8, b2: u8) -> int {
    b0 as int * 0x1_0000 + b1 as int * 0x100 + b2 as int
}

/// The number that four bytes spell, most significant first.
pub open spec fn u32_of(b0: u8, b1: u8, b2: u8, b3: u8) -> int {
    b0 as int * 0x100_0000 + b1 as int * 0x1_0000 + b2 as int * 0x100 + b3 as int
}

/// The bytes of a 32-bit value, as shifts compute them.
pub proof fn lemma_u32_bytes(x: u32)
    by (bit_vector)
    ensures
        (x >> 24) as u8 == x / 0x100_0000,
        (x >> 16) as u8 == x / 0x1_0000 % 0x100,
        (x >> 8) as u8 == x / 0x100 % 0x100,
        x as u8 == x % 0x100,
{
}

/// The bytes of a 64-bit value, as shifts compute them.
pub proof fn lemma_u64_bytes(x: u64)
    by (bit_vector)
    ensures
        (x >> 56) as u8 == x / 0x100_0000_0000_0000,
        (x >> 48) as u8 == x / 0x1_0000_0000_0000 % 0x100,
        (x >> 40) as u8 == x / 0x100_0000_0000 % 0x100,
        (x >> 32) as u8 == x / 0x1_0000_0000 % 0x100,
        (x >> 24) as u8 == x / 0x100_0000 % 0x100,
        (x >> 16) as u8 == x / 0x1_0000 % 0x100,
        (x >> 8) as u8 == x / 0x100 % 0x100,
        x as u8 == x % 0x100,
{
}

/// The low bytes of a length, as shifts compute them.
pub proof fn lemma_usize_bytes(x: usize)
    by (bit_vector)
    ensures
        (x >> 16) as u8 == x / 0x1_0000 % 0x100,
        (x >> 8) as u8 == x / 0x100 % 0x100,
        x as u8 == x % 0x100,
{
}

/// Eight bytes joined by shifts give the number they spell.
pub proof fn lemma_join_u64(b0: u8, b1: u8, b2: u8, b3: u8, b4: u8, b5: u8, b6: u8, b7: u8)
    by (bit_vector)
    ensures
        ((b0 as u64) << 56 | (b1 as u64) << 48 | (b2 as u64) << 40 | (b3 as u64) << 32 | (b4 as u64)
            << 24 | (b5 as u64) << 16 | (b6 as u64) << 8 | (b7 as u64)) == (b0 as u64)
            * 0x100_0000_0000_0000 + (b1 as u64) * 0x1_0000_0000_0000 + (b2 as u64)
            * 0x100_0000_0000 + (b3 as u64) * 0x1_0000_0000 + (b4 as u64) * 0x100_0000 + (b5 as u64)
            * 0x1_0000 + (b6 as u64) * 0x100 + (b7 as u64),
{
}

/// Two bytes joined by a shift give the number they spell.
pub proof fn lemma_join_u16(b0: u8, b1: u8)
    by (bit_vector)
    ensures
        ((b0 as usize) << 8 | (b1 as usize)) == (b0 as usize) * 0x100 + (b1 as usize),
{
}

/// Three bytes joined by shifts give the number they spell.
pub proof fn lemma_join_u24(b0: u8, b1: u8, b2: u8)
    by (bit_vector)
    ensures
        ((b0 as u32) << 16 | (b1 as u32) << 8 | (b2 as u32)) == (b0 as u32) * 0x1_0000 + (b1 as u32)
            * 0x100 + (b2 as u32),
{
}

/// Four bytes joined by shifts give the number they spell.
pub proof fn lemma_join_u32(b0: u8, b1: u8, b2: u8, b3: u8)
    by (bit_vector)
    ensures
        ((b0 as u32) << 24 | (b1 as u32) << 16 | (b2 as u32) << 8 | (b3 as u32)) == (b0 as u32)
            * 0x100_0000 + (b1 as u32) * 0x1_0000 + (b2 as u32) * 0x100 + (b3 as u32),
{
}

/// Writing a 24-bit number and reading it back gives the number.
pub proof fn lemma_be24_roundtrip(n: int)
    requires
        0 <= n <= 0xFF_FFFF,
    ensures
        u24_of(be24(n)[0], be24(n)[1], be24(n)[2]) == n,
        be24(n).len() == 3,
{
}

/// Writing a 32-bit number and reading it back gives the number.
pub proof fn lemma_be32_roundtrip(n: u32)
    ensures
        u32_of(be32(n)[0], be32(n)[1], be32(n)[2], be32(n)[3]) == n,
        be32(n).len() == 4,
{
}

/// Writing a 16-bit number and reading it back gives the number.
pub proof fn lemma_be16_roundtrip(n: int)
    requires
        0 <= n <= 0xFFFF,
    ensures
        u16_of(be16(n)[0], be16(n)[1]) == n,
        be16(n).len() == 2,
{
}

/// Writing a 64-bit number and reading it back gives the number.
pub proof fn lemma_be64_roundtrip(n: u64)
    ensures
        u64_of(be64(n)) == n,
        be64(n).len() == 8,
{
    assert(n == (n / 0x100_0000_0000_0000) * 0x100_0000_0000_0000 + (n / 0x1_0000_0000_0000
        % 0x100) * 0x1_0000_0000_0000 + (n / 0x100_0000_0000 % 0x100) * 0x100_0000_0000 + (n
        / 0x1_0000_0000 % 0x100) * 0x1_0000_0000 + (n / 0x100_0000 % 0x100) * 0x100_0000 + (n
        / 0x1_0000 % 0x100) * 0x1_0000 + (n / 0x100 % 0x100) * 0x100 + (n % 0x100)
        && n / 0x100_0000_0000_0000 < 0x100) by (bit_vector);
}

/// Little-endian layout read back from its last byte to its first.
pub proof fn lemma_le32_roundtrip(n: u32)
    ensures
        u32_of(le32(n)[3], le32(n)[2], le32(n)[1], le32(n)[0]) == n,
        le32(n).len() == 4,
{
}

/// Reads a big-endian 24-bit number from the first three bytes of `b`.
pub fn read_u24_be(b: &[u8]) -> (n: u32)
    requires
        b@.len() >= 3,
    ensures
        n == u24_of(b@[0], b@[1], b@[2]),
        n <= 0xFF_FFFF,
{
    proof {
        lemma_join_u24(b@[0], b@[1], b@[2]);
    }
    (b[0] as u32) << 16 | (b[1] as u32) << 8 | b[2] as u32
}

/// Reads a big-endian 32-bit number from the first four bytes of `b`.
pub fn read_u32_be(b: &[u8]) -> (n: u32)
    requires
        b@.len() >= 4,
    ensures
        n == u32_of(b@[0], b@[1], b@[2], b@[3]),
{
    proof {
        lemma_join_u32(b@[0], b@[1], b@[2], b@[3]);
    }
    (b[0] as u32) << 24 | (b[1] as u32) << 16 | (b[2] as u32) << 8 | b[3] as u32
}

/// Reads a little-endian 32-bit number from the first four bytes of `b`.
pub fn read_u32_le(b: &[u8]) -> (n: u32)
    requires
        b@.len() >= 4,
    ensures
        n == u32_of(b@[3], b@[2], b@[1], b@[0]),
{
    proof {
        lemma_join_u32(b@[3], b@[2], b@[1], b@[0]);
    }
    (b[3] as u32) << 24 | (b[2] as u32) << 16 | (b[1] as u32) << 8 | b[0] as u32
}

/// Reads a big-endian 64-bit number from the first eight bytes of `b`.
pub fn read_u64_be(b: &[u8]) -> (n: u64)
    requires
        b@.len() >= 8,
    ensures
        n == u64_of(b@),
{
    proof {
        lemma_join_u64(b@[0], b@[1], b@[2], b@[3], b@[4], b@[5], b@[6], b@[7]);
    }
    (b[0] as u64) << 56 | (b[1] as u64) << 48 | (b[2] as u64) << 40 | (b[3] as u64) << 32 | (
    b[4] as u64) << 24 | (b[5] as u64) << 16 | (b[6] as u64) << 8 | b[7] as u64
}

/// Reads a big-endian 16-bit number from the first two bytes of `b`.
pub fn read_u16_be(b: &[u8]) -> (n: usize)
    requires
        b@.len() >= 2,
    ensures
        n == u16_of(b@[0], b@[1]),
        n <= 0xFFFF,
{
    proof {
        lemma_join_u16(b@[0], b@[1]);
    }
    (b[0] as usize) << 8 | b[1] as usize
}

/// Appends every byte of `src` to `out`.
pub fn append_bytes(out: &mut Vec<u8>, src: &[u8])
    ensures
        final(out)@ == old(out)@ + src@,
{
    out.extend_from_slice(src);
}

/// Appends the low two bytes of `n`, most significant first.
pub fn push_u16(out: &mut Vec<u8>, n: usize)
    ensures
        final(out)@ == old(out)@ + be16(n as int),
{
    proof {
        lemma_usize_bytes(n);
    }
    out.push((n >> 8) as u8);
    out.push(n as u8);
}

/// Appends the low three bytes of `n`, most significant first.
pub fn push_u24(out: &mut Vec<u8>, n: usize)
    ensures
        final(out)@ == old(out)@ + be24(n as int),
{
    proof {
        lemma_usize_bytes(n);
    }
    out.push((n >> 16) as u8);
    out.push((n >> 8) as u8);
    out.push(n as u8);
}

/// Appends `n` as four bytes, most significant first.
pub fn push_u32(out: &mut Vec<u8>, n: u32)
    ensures
        final(out)@ == old(out)@ + be32(n),
{
    proof {
        lemma_u32_bytes(n);
    }
    out.push((n >> 24) as u8);
    out.push((n >> 16) as u8);
    out.push((n >> 8) as u8);
    out.push(n as u8);
}

/// Appends `n` as four bytes, least significant first.
pub fn push_u32_le(out: &mut Vec<u8>, n: u32)
    ensures
        final(out)@ == old(out)@ + le32(n),
{
    proof {
        lemma_u32_bytes(n);
    }
    out.push(n as u8);
    out.push((n >> 8) as u8);
    out.push((n >> 16) as u8);
    out.push((n >> 24) as u8);
}

/// Appends `n` as eight bytes, most significant first.
pub fn push_u64(out: &mut Vec<u8>, n: u64)
    ensures
        final(out)@ == old(out)@ + be64(n),
{
    proof {
        lemma_u64_bytes(n);
    }
    out.push((n >> 56) as u8);
    out.push((n >> 48) as u8);
    out.push((n >> 40) as u8);
    out.push((n >> 32) as u8);
    out.push((n >> 24) as u8);
    out.push((n >> 16) as u8);
    out.push((n >> 8) as u8);
    out.push(n as u8);
}

/// Appends the low three bytes of `n`, most significant first.
pub(crate) fn put_u24(b: &mut BytesMut, n: u32)
    ensures
        pending(*final(b)) == pending(*old(b)) + be24(n as int),
{
    proof {
        lemma_u32_bytes(n);
    }
    buf_put_u8(b, (n >> 16) as u8);
    buf_put_u8(b, (n >> 8) as u8);
    buf_put_u8(b, n as u8);
}

} // verus!
