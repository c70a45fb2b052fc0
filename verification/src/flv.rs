//! FLV container framing: the file header and the tag layout.

use crate::bytebuf::{
    be32, buf_freeze, buf_put_slice, buf_put_u32, buf_put_u8, buf_with_capacity, frozen,
};
use crate::wire::{
    be24, lemma_be24_roundtrip, lemma_be32_roundtrip, lemma_u32_bytes, put_u24, read_u24_be,
    read_u32_be, u24_of, u32_of,
};
use bytes::Bytes;
use vstd::prelude::*;
use vstd::slice::{slice_subrange, slice_to_vec};

verus! {

/// The 13 bytes that open every FLV stream: signature `FLV`, version 1,
/// flags 5 (audio and video), header size 9, and a zero "previous tag size".
pub open spec fn flv_header_bytes() -> Seq<u8> {
    seq![0x46u8, 0x4C, 0x56, 0x01, 0x05, 0x00, 0x00, 0x00, 0x09, 0x00, 0x00, 0x00, 0x00]
}

/// The FLV file header, followed by the zero size that precedes the first
/// tag.
pub fn flv_file_header() -> (hdr: Bytes)
    ensures
        frozen(hdr) == flv_header_bytes(),
{
    let mut b = buf_with_capacity(13);
    buf_put_u8(&mut b, 0x46);
    buf_put_u8(&mut b, 0x4C);
    buf_put_u8(&mut b, 0x56);
    buf_put_u8(&mut b, 1);
    buf_put_u8(&mut b, 0x05);
    buf_put_u32(&mut b, 9);
    buf_put_u32(&mut b, 0);
    let hdr = buf_freeze(b);
    hdr
}

/// One FLV tag, every byte of it: the type, the payload length in 24 bits,
/// the low 24 bits of the timestamp and then its high 8 bits, a zero stream
/// id, the payload, and the size of all that came before (11 plus the
/// payload length) in 32 bits.
pub open spec fn flv_tag_bytes(tag_type: u8, timestamp: u32, payload: Seq<u8>) -> Seq<u8> {
    seq![tag_type] + be24(payload.len() as int) + be24(timestamp as int) + seq![
        (timestamp as int / 0x100_0000) as u8,
    ] + seq![0u8, 0u8, 0u8] + payload + be32((11 + payload.len()) as u32)
}

/// Frames `data` as one FLV tag of the given type and timestamp. The
/// payload length has to fit the tag's 24-bit length field.
pub fn flv_tag(tag_type: u8, timestamp: u32, data: &[u8]) -> (tag: Bytes)
    requires
        data@.len() <= 0xFF_FFFF,
    ensures
        frozen(tag) == flv_tag_bytes(tag_type, timestamp, data@),
{
    let data_len = data.len() as u32;
    let tag_total = 11 + data_len;
    let mut b = buf_with_capacity((tag_total + 4) as usize);
    buf_put_u8(&mut b, tag_type);
    put_u24(&mut b, data_len);
    put_u24(&mut b, timestamp);
    proof {
        lemma_u32_bytes(timestamp);
    }
    buf_put_u8(&mut b, (timestamp >> 24) as u8);
    buf_put_u8(&mut b, 0);
    buf_put_u8(&mut b, 0);
    buf_put_u8(&mut b, 0);
    buf_put_slice(&mut b, data);
    buf_put_u32(&mut b, tag_total);
    let tag = buf_freeze(b);
    assert(frozen(tag) =~= flv_tag_bytes(tag_type, timestamp, data@));
    tag
}

/// A tag read back from its bytes.
#[derive(Debug, Clone, PartialEq, Eq)]
pub struct FlvTag {
    pub tag_type: u8,
    pub timestamp: u32,
    pub payload: Vec<u8>,
}

/// What a tag at the front of `bytes` says, if a whole tag stands there: its
/// type, timestamp and payload, and how many bytes it takes. `None` when the
/// bytes stop short, the stream id is not zero, or the trailing size does not
/// match.
pub open spec fn flv_tag_at(bytes: Seq<u8>) -> Option<(u8, u32, Seq<u8>, int)> {
    if bytes.len() < 15 {
        None
    } else {
        let len = u24_of(bytes[1], bytes[2], bytes[3]);
        let ts = bytes[7] as int * 0x100_0000 + u24_of(bytes[4], bytes[5], bytes[6]);
        if bytes.len() < len + 15 {
            None
        } else if bytes[8] != 0 || bytes[9] != 0 || bytes[10] != 0 {
            None
        } else if u32_of(bytes[len + 11], bytes[len + 12], bytes[len + 13], bytes[len + 14]) != len
            + 11 {
            None
        } else {
            Some((bytes[0], ts as u32, bytes.subrange(11, len + 11), len + 15))
        }
    }
}

/// Reads the tag that stands at the front of `data`, and says how many bytes
/// it took.
pub fn parse_flv_tag(data: &[u8]) -> (r: Option<(FlvTag, usize)>)
    ensures
        match r {
            Some((tag, used)) => flv_tag_at(data@) == Some(
                (tag.tag_type, tag.timestamp, tag.payload@, used as int),
            ),
            None => flv_tag_at(data@) is None,
        },
{
    if data.len() < 15 {
        return None;
    }
    let len = read_u24_be(slice_subrange(data, 1, 4)) as usize;
    let low = read_u24_be(slice_subrange(data, 4, 7));
    proof {
        lemma_join_high(data@[7], low);
    }
    let ts = (data[7] as u32) << 24 | low;
    if data.len() - 15 < len {
        return None;
    }
    if data[8] != 0 || data[9] != 0 || data[10] != 0 {
        return None;
    }
    let trailer = read_u32_be(slice_subrange(data, len + 11, len + 15));
    if trailer as usize != len + 11 {
        return None;
    }
    let payload = slice_to_vec(slice_subrange(data, 11, len + 11));
    Some((FlvTag { tag_type: data[0], timestamp: ts, payload }, len + 15))
}

/// A high byte joined to a 24-bit number by a shift.
proof fn lemma_join_high(b: u8, low: u32)
    by (bit_vector)
    requires
        low <= 0xFF_FFFF,
    ensures
        ((b as u32) << 24 | low) == (b as u32) * 0x100_0000 + low,
{
}

/// A tag that was framed reads back as the type, timestamp and payload it
/// was framed from, whatever bytes follow it, and takes 15 bytes more than
/// its payload; its last four bytes spell 11 plus the payload length.
pub proof fn lemma_flv_tag_roundtrip(tag_type: u8, timestamp: u32, payload: Seq<u8>, rest: Seq<u8>)
    requires
        payload.len() <= 0xFF_FFFF,
    ensures
        flv_tag_bytes(tag_type, timestamp, payload).len() == payload.len() + 15,
        flv_tag_at(flv_tag_bytes(tag_type, timestamp, payload) + rest) == Some(
            (tag_type, timestamp, payload, payload.len() as int + 15),
        ),
        flv_tag_bytes(tag_type, timestamp, payload).subrange(
            payload.len() as int + 11,
            payload.len() as int + 15,
        ) == be32((11 + payload.len()) as u32),
{
    let tag = flv_tag_bytes(tag_type, timestamp, payload);
    let all = tag + rest;
    let len = payload.len() as int;
    lemma_be24_roundtrip(len);
    lemma_be32_roundtrip((11 + len) as u32);
    assert(be24(timestamp as int).len() == 3);
    assert(tag.len() == len + 15);
    assert(all[1] == be24(len)[0] && all[2] == be24(len)[1] && all[3] == be24(len)[2]);
    assert(all[4] == be24(timestamp as int)[0] && all[5] == be24(timestamp as int)[1] && all[6]
        == be24(timestamp as int)[2]);
    assert(all[7] == (timestamp as int / 0x100_0000) as u8);
    assert(all[8] == 0 && all[9] == 0 && all[10] == 0);
    let t = be32((11 + len) as u32);
    assert(all[len + 11] == t[0] && all[len + 12] == t[1] && all[len + 13] == t[2] && all[len
        + 14] == t[3]);
    assert(all.subrange(11, len + 11) =~= payload);
    assert(tag.subrange(len + 11, len + 15) =~= t);
}

/// The bytes of a list of chunks, one chunk after the other.
pub open spec fn joined(chunks: Seq<Seq<u8>>) -> Seq<u8>
    decreases chunks.len(),
{
    if chunks.len() == 0 {
        Seq::empty()
    } else {
        joined(chunks.drop_last()) + chunks.last()
    }
}

/// The bytes of a list with one chunk more are the bytes of the list and
/// then the chunk.
pub proof fn lemma_joined_push(chunks: Seq<Seq<u8>>, chunk: Seq<u8>)
    ensures
        joined(chunks.push(chunk)) == joined(chunks) + chunk,
{
    assert(chunks.push(chunk).drop_last() =~= chunks);
}

/// The bytes of two lists, one after the other, are the bytes of the first
/// and then the bytes of the second.
pub proof fn lemma_joined_concat(a: Seq<Seq<u8>>, b: Seq<Seq<u8>>)
    ensures
        joined(a + b) == joined(a) + joined(b),
    decreases b.len(),
{
    if b.len() > 0 {
        lemma_joined_concat(a, b.drop_last());
        assert((a + b).drop_last() =~= a + b.drop_last());
        assert(joined(a + b) =~= joined(a) + joined(b));
    }
}

/// The bytes of a list of one chunk are the chunk.
pub proof fn lemma_joined_one(chunk: Seq<u8>)
    ensures
        joined(seq![chunk]) == chunk,
{
    lemma_joined_push(Seq::empty(), chunk);
}

/// Whether `c` is one whole FLV tag and nothing else.
pub open spec fn whole_tag(c: Seq<u8>) -> bool {
    flv_tag_at(c) matches Some((_, _, _, used)) && used == c.len()
}

/// Whether `c` is one whole FLV tag that carries an H.264 keyframe: a video
/// tag whose first payload byte has 1 in its high four bits.
pub open spec fn keyframe_tag(c: Seq<u8>) -> bool {
    flv_tag_at(c) matches Some((tag_type, _, payload, used)) && used == c.len() && tag_type == 9
        && payload.len() > 0 && payload[0] / 16 == 1
}

/// Whether every chunk of a list is one whole FLV tag.
pub open spec fn all_tags(chunks: Seq<Seq<u8>>) -> bool {
    forall|i: int| 0 <= i < chunks.len() ==> whole_tag(#[trigger] chunks[i])
}

/// Whether a list of chunks is empty or opens with the FLV file header and
/// goes on with whole tags only.
pub open spec fn is_flv_prefix(chunks: Seq<Seq<u8>>) -> bool {
    chunks.len() > 0 ==> chunks[0] == flv_header_bytes() && all_tags(chunks.skip(1))
}

/// Whether `bytes` is nothing but whole FLV tags, one after the other.
pub open spec fn tags_only(bytes: Seq<u8>) -> bool
    decreases bytes.len(),
{
    bytes.len() == 0 || match flv_tag_at(bytes) {
        Some((_, _, _, used)) => tags_only(bytes.skip(used)),
        None => false,
    }
}

/// Whether `bytes` is an FLV stream that can be decoded from its first
/// byte: the file header, then whole tags only.
pub open spec fn flv_stream(bytes: Seq<u8>) -> bool {
    bytes.len() >= 13 && bytes.subrange(0, 13) == flv_header_bytes() && tags_only(bytes.skip(13))
}

/// A framed tag is a whole tag, and a framed keyframe is a keyframe tag.
pub proof fn lemma_framed_tag_is_whole(tag_type: u8, timestamp: u32, payload: Seq<u8>)
    requires
        payload.len() <= 0xFF_FFFF,
    ensures
        whole_tag(flv_tag_bytes(tag_type, timestamp, payload)),
        tag_type == 9 && payload.len() > 0 && payload[0] / 16 == 1 ==> keyframe_tag(
            flv_tag_bytes(tag_type, timestamp, payload),
        ),
{
    lemma_flv_tag_roundtrip(tag_type, timestamp, payload, Seq::empty());
}

/// What follows a whole tag does not change how the tag reads.
pub proof fn lemma_tag_reads_alike_with_more(c: Seq<u8>, rest: Seq<u8>)
    requires
        whole_tag(c),
    ensures
        flv_tag_at(c + rest) == flv_tag_at(c),
{
}

/// Whole tags, joined, are nothing but whole tags.
pub proof fn lemma_joined_tags(chunks: Seq<Seq<u8>>)
    requires
        all_tags(chunks),
    ensures
        tags_only(joined(chunks)),
    decreases chunks.len(),
{
    if chunks.len() > 0 {
        let first = chunks[0];
        let others = chunks.skip(1);
        assert(whole_tag(first));
        assert forall|i: int| 0 <= i < others.len() implies whole_tag(#[trigger] others[i]) by {
            assert(others[i] == chunks[i + 1]);
        }
        lemma_joined_tags(others);
        assert(chunks =~= seq![first] + others);
        lemma_joined_concat(seq![first], others);
        lemma_joined_one(first);
        lemma_tag_reads_alike_with_more(first, joined(others));
        assert(joined(chunks).skip(first.len() as int) =~= joined(others));
    }
}

/// A viewer's bytes are a decodable FLV stream. A list of chunks that opens
/// with the file header and goes on with whole tags, however it is split
/// into init prefix, group of pictures and live tail, joins to an FLV
/// stream that can be decoded from its first byte.
pub proof fn lemma_chunks_join_to_flv_stream(chunks: Seq<Seq<u8>>)
    requires
        chunks.len() > 0,
        is_flv_prefix(chunks),
    ensures
        flv_stream(joined(chunks)),
{
    let first = chunks[0];
    let others = chunks.skip(1);
    lemma_joined_tags(others);
    assert(chunks =~= seq![first] + others);
    lemma_joined_concat(seq![first], others);
    lemma_joined_one(first);
    assert(joined(chunks).subrange(0, 13) =~= flv_header_bytes());
    assert(joined(chunks).skip(13) =~= joined(others));
}

} // verus!
