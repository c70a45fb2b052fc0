//! The RTMP chunk stream: one chunk at a time is taken from the front of a
//! byte buffer, and messages are reassembled per chunk-stream id.

use crate::bytebuf::{
    buf_clear, buf_freeze, buf_put_slice, buf_split, buf_with_capacity, frozen, pending,
};
use crate::error::ProtocolError;
use crate::wire::{read_u24_be, read_u32_be, read_u32_le, u24_of, u32_of};
use bytes::{Bytes, BytesMut};
use std::collections::HashMap;
use vstd::prelude::*;
use vstd::slice::slice_subrange;
use vstd::std_specs::hash::group_hash_axioms;

verus! {

/// The chunk size a peer uses until it announces another.
pub const DEFAULT_CHUNK_SIZE: u32 = 128;

/// The header fields that one chunk stream remembers between chunks.
#[derive(Debug, Clone, Copy, PartialEq, Eq, Structural)]
pub struct ChunkHeader {
    /// Absolute timestamp of the message being received, modulo 2^32.
    pub timestamp: u32,
    /// Length of the message being received, at most 2^24 - 1.
    pub msg_length: u32,
    pub msg_type_id: u8,
    pub msg_stream_id: u32,
    /// Payload bytes of the current message that have not arrived yet.
    pub bytes_left: u32,
    /// The timestamp delta that a header-less chunk applies again.
    pub last_delta: u32,
    /// Whether the last header on this chunk stream carried the 32-bit
    /// extended timestamp field.
    pub has_extended_ts: bool,
    /// That field, as it was last read at the start of a message.
    pub ext_field: u32,
}

/// A chunk stream: its remembered header and the part of the current
/// message that has arrived.
pub struct ChunkState {
    pub head: ChunkHeader,
    pub buf: BytesMut,
}

/// A chunk stream as a value: header fields and received payload bytes.
pub ghost struct ChunkStateView {
    pub head: ChunkHeader,
    pub buf: Seq<u8>,
}

impl View for ChunkState {
    type V = ChunkStateView;

    open spec fn view(&self) -> ChunkStateView {
        ChunkStateView { head: self.head, buf: pending(self.buf) }
    }
}

/// One reassembled RTMP message.
pub struct RtmpMessage {
    pub chunk_stream_id: u32,
    pub message_type: u8,
    pub message_stream_id: u32,
    pub timestamp: u32,
    pub payload: Bytes,
}

/// A message as a value.
pub ghost struct MessageView {
    pub chunk_stream_id: u32,
    pub message_type: u8,
    pub message_stream_id: u32,
    pub timestamp: u32,
    pub payload: Seq<u8>,
}

impl View for RtmpMessage {
    type V = MessageView;

    open spec fn view(&self) -> MessageView {
        MessageView {
            chunk_stream_id: self.chunk_stream_id,
            message_type: self.message_type,
            message_stream_id: self.message_stream_id,
            timestamp: self.timestamp,
            payload: frozen(self.payload),
        }
    }
}

/// The header of a chunk stream on which nothing has arrived.
pub open spec fn blank_header() -> ChunkHeader {
    ChunkHeader {
        timestamp: 0,
        msg_length: 0,
        msg_type_id: 0,
        msg_stream_id: 0,
        bytes_left: 0,
        last_delta: 0,
        has_extended_ts: false,
        ext_field: 0,
    }
}

/// The chunk basic header: format, chunk-stream id, and its own length in
/// bytes. `None` while the bytes for it have not all arrived.
///
/// The top two bits of the first byte are the format. The low six bits are
/// the id, except that 0 and 1 announce an id in the next one or two bytes,
/// little-endian and offset by 64.
pub open spec fn basic_header(input: Seq<u8>) -> Option<(u8, u32, int)> {
    if input.len() < 1 {
        None
    } else {
        let fmt = input[0] / 64;
        let low = input[0] % 64;
        if low == 0 {
            if input.len() < 2 {
                None
            } else {
                Some((fmt, (input[1] as int + 64) as u32, 2))
            }
        } else if low == 1 {
            if input.len() < 3 {
                None
            } else {
                Some((fmt, (input[2] as int * 256 + input[1] as int + 64) as u32, 3))
            }
        } else {
            Some((fmt, low as u32, 1))
        }
    }
}

/// Length of the message header that follows the basic header.
pub open spec fn message_header_len(fmt: u8) -> int {
    if fmt == 0 {
        11
    } else if fmt == 1 {
        7
    } else if fmt == 2 {
        3
    } else {
        0
    }
}

/// What the message header of one chunk amounts to.
pub ghost enum HeaderOutcome {
    /// Not all of its bytes have arrived.
    NeedMore,
    /// It breaks the framing rules.
    Malformed(ProtocolError),
    /// The chunk stream's header after it, the number of bytes it took
    /// (extended timestamp included), and whether it starts a new message,
    /// so that what was received of the previous one is dropped.
    Parsed { head: ChunkHeader, len: int, fresh: bool },
}

/// Reads the message header that stands at the front of `h`, for a chunk of
/// format `fmt` on a chunk stream that remembers `prev`.
///
/// * Format 0 carries timestamp, length, type and little-endian message
///   stream id, and starts a message.
/// * Format 1 carries a timestamp delta, length and type, and starts a
///   message.
/// * Format 2 carries a timestamp delta only.
/// * Format 3 carries nothing; where the previous message is complete the
///   remembered delta is applied again.
///
/// A 24-bit field of `0xFFFFFF` is followed by the real value in 32 bits.
/// A format 3 chunk has that field exactly when the previous header on its
/// chunk stream had it; within a message it must repeat the value that the
/// message started with. Timestamps are added modulo 2^32.
#[verifier::opaque]
pub open spec fn message_header(prev: ChunkHeader, fmt: u8, h: Seq<u8>) -> HeaderOutcome {
    let mh = message_header_len(fmt);
    if h.len() < mh {
        HeaderOutcome::NeedMore
    } else {
        let field = if fmt <= 2 {
            u24_of(h[0], h[1], h[2])
        } else {
            0
        };
        let extended = if fmt <= 2 {
            field == 0xFF_FFFF
        } else {
            prev.has_extended_ts
        };
        if extended && h.len() < mh + 4 {
            HeaderOutcome::NeedMore
        } else {
            let ext = u32_of(h[mh], h[mh + 1], h[mh + 2], h[mh + 3]) as u32;
            let value = if extended {
                ext
            } else {
                field as u32
            };
            let len = if extended {
                mh + 4
            } else {
                mh
            };
            let idle = prev.bytes_left == 0;
            if fmt == 0 {
                let length = u24_of(h[3], h[4], h[5]) as u32;
                HeaderOutcome::Parsed {
                    head: ChunkHeader {
                        timestamp: value,
                        msg_length: length,
                        msg_type_id: h[6],
                        msg_stream_id: u32_of(h[10], h[9], h[8], h[7]) as u32,
                        bytes_left: length,
                        last_delta: 0,
                        has_extended_ts: extended,
                        ext_field: value,
                    },
                    len,
                    fresh: true,
                }
            } else if fmt == 1 {
                let length = u24_of(h[3], h[4], h[5]) as u32;
                HeaderOutcome::Parsed {
                    head: ChunkHeader {
                        timestamp: prev.timestamp.wrapping_add(value),
                        msg_length: length,
                        msg_type_id: h[6],
                        msg_stream_id: prev.msg_stream_id,
                        bytes_left: length,
                        last_delta: value,
                        has_extended_ts: extended,
                        ext_field: value,
                    },
                    len,
                    fresh: true,
                }
            } else if fmt == 2 {
                HeaderOutcome::Parsed {
                    head: ChunkHeader {
                        timestamp: prev.timestamp.wrapping_add(value),
                        bytes_left: if idle {
                            prev.msg_length
                        } else {
                            prev.bytes_left
                        },
                        last_delta: value,
                        has_extended_ts: extended,
                        ext_field: value,
                        ..prev
                    },
                    len,
                    fresh: idle,
                }
            } else if !idle {
                if extended && ext != prev.ext_field {
                    HeaderOutcome::Malformed(ProtocolError::ExtendedTimestampMismatch)
                } else {
                    HeaderOutcome::Parsed { head: prev, len, fresh: false }
                }
            } else {
                HeaderOutcome::Parsed {
                    head: ChunkHeader {
                        timestamp: prev.timestamp.wrapping_add(
                            if extended {
                                ext
                            } else {
                                prev.last_delta
                            },
                        ),
                        bytes_left: prev.msg_length,
                        ext_field: if extended {
                            ext
                        } else {
                            prev.ext_field
                        },
                        ..prev
                    },
                    len,
                    fresh: true,
                }
            }
        }
    }
}

/// Executable counterpart of [`message_header`]: `Ok(None)` while bytes are
/// missing, otherwise the new header, the bytes taken and the fresh flag.
pub fn parse_message_header(prev: ChunkHeader, fmt: u8, h: &[u8]) -> (r: Result<
    Option<(ChunkHeader, usize, bool)>,
    ProtocolError,
>)
    requires
        fmt <= 3,
    ensures
        match message_header(prev, fmt, h@) {
            HeaderOutcome::NeedMore => r == Ok::<
                Option<(ChunkHeader, usize, bool)>,
                ProtocolError,
            >(None),
            HeaderOutcome::Malformed(e) => r == Err::<
                Option<(ChunkHeader, usize, bool)>,
                ProtocolError,
            >(e),
            HeaderOutcome::Parsed { head, len, fresh } => r == Ok::<
                Option<(ChunkHeader, usize, bool)>,
                ProtocolError,
            >(Some((head, len as usize, fresh))) && 0 <= len <= 15,
        },
{
    reveal(message_header);
    let mh: usize = if fmt == 0 {
        11
    } else if fmt == 1 {
        7
    } else if fmt == 2 {
        3
    } else {
        0
    };
    if h.len() < mh {
        return Ok(None);
    }
    let field: u32 = if fmt <= 2 {
        read_u24_be(h)
    } else {
        0
    };
    let extended = if fmt <= 2 {
        field == 0xFF_FFFF
    } else {
        prev.has_extended_ts
    };
    if extended && h.len() < mh + 4 {
        return Ok(None);
    }
    let ext: u32 = if extended {
        read_u32_be(slice_subrange(h, mh, mh + 4))
    } else {
        0
    };
    let value = if extended {
        ext
    } else {
        field
    };
    let len = if extended {
        mh + 4
    } else {
        mh
    };
    let idle = prev.bytes_left == 0;
    if fmt == 0 {
        let length = read_u24_be(slice_subrange(h, 3, 6));
        let msid = read_u32_le(slice_subrange(h, 7, 11));
        Ok(
            Some(
                (
                    ChunkHeader {
                        timestamp: value,
                        msg_length: length,
                        msg_type_id: h[6],
                        msg_stream_id: msid,
                        bytes_left: length,
                        last_delta: 0,
                        has_extended_ts: extended,
                        ext_field: value,
                    },
                    len,
                    true,
                ),
            ),
        )
    } else if fmt == 1 {
        let length = read_u24_be(slice_subrange(h, 3, 6));
        Ok(
            Some(
                (
                    ChunkHeader {
                        timestamp: prev.timestamp.wrapping_add(value),
                        msg_length: length,
                        msg_type_id: h[6],
                        msg_stream_id: prev.msg_stream_id,
                        bytes_left: length,
                        last_delta: value,
                        has_extended_ts: extended,
                        ext_field: value,
                    },
                    len,
                    true,
                ),
            ),
        )
    } else if fmt == 2 {
        Ok(
            Some(
                (
                    ChunkHeader {
                        timestamp: prev.timestamp.wrapping_add(value),
                        msg_length: prev.msg_length,
                        msg_type_id: prev.msg_type_id,
                        msg_stream_id: prev.msg_stream_id,
                        bytes_left: if idle {
                            prev.msg_length
                        } else {
                            prev.bytes_left
                        },
                        last_delta: value,
                        has_extended_ts: extended,
                        ext_field: value,
                    },
                    len,
                    idle,
                ),
            ),
        )
    } else if !idle {
        if extended && ext != prev.ext_field {
            Err(ProtocolError::ExtendedTimestampMismatch)
        } else {
            Ok(Some((prev, len, false)))
        }
    } else {
        let delta = if extended {
            ext
        } else {
            prev.last_delta
        };
        Ok(
            Some(
                (
                    ChunkHeader {
                        timestamp: prev.timestamp.wrapping_add(delta),
                        msg_length: prev.msg_length,
                        msg_type_id: prev.msg_type_id,
                        msg_stream_id: prev.msg_stream_id,
                        bytes_left: prev.msg_length,
                        last_delta: prev.last_delta,
                        has_extended_ts: prev.has_extended_ts,
                        ext_field: if extended {
                            ext
                        } else {
                            prev.ext_field
                        },
                    },
                    len,
                    true,
                ),
            ),
        )
    }
}

/// The extended timestamp is sticky. On a chunk stream whose last header
/// carried the 32-bit field, a format 3 chunk carries it too: it is never
/// read with fewer than four bytes, and once the bytes are there the header
/// takes exactly four. Within a message, four bytes that do not repeat the
/// field the message started with are refused, which is how a chunk that
/// left the field out is caught.
pub proof fn lemma_extended_timestamp_is_sticky(prev: ChunkHeader, h: Seq<u8>)
    requires
        prev.has_extended_ts,
    ensures
        h.len() < 4 ==> message_header(prev, 3, h) == HeaderOutcome::NeedMore,
        message_header(prev, 3, h) matches HeaderOutcome::Parsed { len, .. } ==> len == 4,
        h.len() >= 4 && prev.bytes_left > 0 && u32_of(h[0], h[1], h[2], h[3]) != prev.ext_field
            ==> message_header(prev, 3, h) == HeaderOutcome::Malformed(
            ProtocolError::ExtendedTimestampMismatch,
        ),
        h.len() >= 4 && prev.bytes_left > 0 && u32_of(h[0], h[1], h[2], h[3]) == prev.ext_field
            ==> message_header(prev, 3, h) == (HeaderOutcome::Parsed {
            head: prev,
            len: 4,
            fresh: false,
        }),
{
    reveal(message_header);
}

/// A header of format 0, 1 or 2 that spells `0xFFFFFF` in its 24-bit field
/// switches the extended timestamp on for its chunk stream, and any other
/// value switches it off.
pub proof fn lemma_extended_timestamp_is_tracked(prev: ChunkHeader, fmt: u8, h: Seq<u8>)
    requires
        fmt <= 2,
    ensures
        message_header(prev, fmt, h) matches HeaderOutcome::Parsed { head, len, .. }
            ==> head.has_extended_ts == (u24_of(h[0], h[1], h[2]) == 0xFF_FFFF) && len
            == message_header_len(fmt) + if head.has_extended_ts {
            4int
        } else {
            0int
        },
{
    reveal(message_header);
}

/// A message header keeps a chunk stream sound: the length it leaves fits
/// 24 bits; where it starts a message the whole message is lacking; where
/// it does not, the chunk stream was within a message and what is lacking
/// has not changed. It takes at most 15 bytes, and no more than there are.
pub proof fn lemma_header_sound(prev: ChunkHeader, fmt: u8, h: Seq<u8>)
    requires
        prev.msg_length <= 0xFF_FFFF,
    ensures
        message_header(prev, fmt, h) matches HeaderOutcome::Parsed { head, len, fresh } ==> {
            &&& head.msg_length <= 0xFF_FFFF
            &&& 0 <= len <= 15
            &&& len <= h.len()
            &&& fresh ==> head.bytes_left == head.msg_length
            &&& !fresh ==> prev.bytes_left > 0 && head.bytes_left == prev.bytes_left
                && head.msg_length == prev.msg_length
        },
{
    reveal(message_header);
}

/// The demultiplexer: the peer's chunk size and every chunk stream seen.
pub struct ChunkDemux {
    chunk_size: u32,
    chunks: HashMap<u32, ChunkState>,
}

/// The demultiplexer as a value.
pub ghost struct DemuxView {
    pub chunk_size: u32,
    pub streams: Map<u32, ChunkStateView>,
}

impl ChunkStateView {
    /// The message length fits 24 bits, and what has arrived and what is
    /// still missing add up to it; between messages nothing is held.
    pub open spec fn wf(self) -> bool {
        &&& self.head.msg_length <= 0xFF_FFFF
        &&& if self.head.bytes_left == 0 {
            self.buf.len() == 0
        } else {
            self.buf.len() + self.head.bytes_left == self.head.msg_length
        }
    }
}

impl DemuxView {
    /// The chunk size is at least 1 and every chunk stream is well-formed.
    pub open spec fn wf(self) -> bool {
        &&& self.chunk_size >= 1
        &&& forall|id: u32| #[trigger]
            self.streams.contains_key(id) ==> self.streams[id].wf()
    }
}

impl View for ChunkDemux {
    type V = DemuxView;

    closed spec fn view(&self) -> DemuxView {
        DemuxView {
            chunk_size: self.chunk_size,
            streams: Map::new(
                |id: u32| self.chunks@.contains_key(id),
                |id: u32| self.chunks@[id]@,
            ),
        }
    }
}

/// What taking one chunk from the front of the input amounts to.
pub ghost enum ChunkOutcome {
    /// The chunk has not arrived in full; nothing is taken.
    NeedMore,
    /// The chunk breaks the framing rules.
    Malformed(ProtocolError),
    /// The chunk took `used` bytes and left the demultiplexer in `state`;
    /// where it completed a message, that message.
    Taken { used: int, state: DemuxView, message: Option<MessageView> },
}

/// The smaller of two numbers.
pub open spec fn min_u32(a: u32, b: u32) -> u32 {
    if a <= b {
        a
    } else {
        b
    }
}

/// Takes one chunk from the front of `input`.
///
/// After the basic header and the message header, the chunk carries as many
/// payload bytes as the message still lacks, but no more than the peer's
/// chunk size. They are appended to what the chunk stream holds; when
/// nothing is lacking any more the message is handed out and the chunk
/// stream holds nothing. A chunk of format 1, 2 or 3 on a chunk stream that
/// never saw format 0 is malformed.
#[verifier::opaque]
pub open spec fn chunk_step(d: DemuxView, input: Seq<u8>) -> ChunkOutcome {
    match basic_header(input) {
        None => ChunkOutcome::NeedMore,
        Some((fmt, cs_id, blen)) => {
            if fmt != 0 && !d.streams.contains_key(cs_id) {
                ChunkOutcome::Malformed(ProtocolError::MissingHeader)
            } else {
                let prev = if d.streams.contains_key(cs_id) {
                    d.streams[cs_id]
                } else {
                    ChunkStateView { head: blank_header(), buf: Seq::empty() }
                };
                match message_header(prev.head, fmt, input.skip(blen)) {
                    HeaderOutcome::NeedMore => ChunkOutcome::NeedMore,
                    HeaderOutcome::Malformed(e) => ChunkOutcome::Malformed(e),
                    HeaderOutcome::Parsed { head, len, fresh } => {
                        let take = min_u32(head.bytes_left, d.chunk_size) as int;
                        let start = blen + len;
                        if input.len() < start + take {
                            ChunkOutcome::NeedMore
                        } else {
                            let kept = if fresh {
                                Seq::empty()
                            } else {
                                prev.buf
                            };
                            let buf = kept + input.subrange(start, start + take);
                            let left = (head.bytes_left - take) as u32;
                            let after = ChunkHeader { bytes_left: left, ..head };
                            if left == 0 {
                                ChunkOutcome::Taken {
                                    used: start + take,
                                    state: DemuxView {
                                        streams: d.streams.insert(
                                            cs_id,
                                            ChunkStateView { head: after, buf: Seq::empty() },
                                        ),
                                        ..d
                                    },
                                    message: Some(
                                        MessageView {
                                            chunk_stream_id: cs_id,
                                            message_type: head.msg_type_id,
                                            message_stream_id: head.msg_stream_id,
                                            timestamp: head.timestamp,
                                            payload: buf,
                                        },
                                    ),
                                }
                            } else {
                                ChunkOutcome::Taken {
                                    used: start + take,
                                    state: DemuxView {
                                        streams: d.streams.insert(
                                            cs_id,
                                            ChunkStateView { head: after, buf },
                                        ),
                                        ..d
                                    },
                                    message: None,
                                }
                            }
                        }
                    },
                }
            }
        },
    }
}

/// What follows a message header does not change how the header reads.
pub proof fn lemma_header_reads_alike_with_more(
    prev: ChunkHeader,
    fmt: u8,
    h: Seq<u8>,
    rest: Seq<u8>,
)
    ensures
        message_header(prev, fmt, h) is Parsed ==> message_header(prev, fmt, h + rest)
            == message_header(prev, fmt, h),
{
    reveal(message_header);
}

/// What follows a whole chunk does not change how the chunk reads.
pub proof fn lemma_chunk_reads_alike_with_more(d: DemuxView, chunk: Seq<u8>, rest: Seq<u8>)
    requires
        d.wf(),
    ensures
        chunk_step(d, chunk) is Taken ==> chunk_step(d, chunk + rest) == chunk_step(d, chunk),
{
    reveal(chunk_step);
    if chunk_step(d, chunk) is Taken {
        let all = chunk + rest;
        match basic_header(chunk) {
            Some((fmt, cs_id, blen)) => {
                let prev = if d.streams.contains_key(cs_id) {
                    d.streams[cs_id]
                } else {
                    ChunkStateView { head: blank_header(), buf: Seq::empty() }
                };
                assert(all.skip(blen) =~= chunk.skip(blen) + rest);
                lemma_header_sound(prev.head, fmt, chunk.skip(blen));
                lemma_header_reads_alike_with_more(prev.head, fmt, chunk.skip(blen), rest);
                match message_header(prev.head, fmt, chunk.skip(blen)) {
                    HeaderOutcome::Parsed { head, len, fresh } => {
                        let take = min_u32(head.bytes_left, d.chunk_size) as int;
                        let start = blen + len;
                        assert(all.subrange(start, start + take) =~= chunk.subrange(
                            start,
                            start + take,
                        ));
                    },
                    _ => {},
                }
            },
            None => {},
        }
    }
}

/// A chunk that is taken takes at least one byte and no more than there
/// are, leaves the demultiplexer well-formed, and completes only messages
/// whose payload has the announced length, which fits 24 bits.
pub proof fn lemma_chunk_step_sound(d: DemuxView, input: Seq<u8>)
    requires
        d.wf(),
    ensures
        chunk_step(d, input) matches ChunkOutcome::Taken { used, state, message } ==> {
            &&& 1 <= used <= input.len()
            &&& state.wf()
            &&& state.chunk_size == d.chunk_size
            &&& message matches Some(m) ==> m.payload.len() <= 0xFF_FFFF
        },
{
    reveal(chunk_step);
    match basic_header(input) {
        Some((fmt, cs_id, blen)) => {
            let prev = if d.streams.contains_key(cs_id) {
                d.streams[cs_id]
            } else {
                ChunkStateView { head: blank_header(), buf: Seq::empty() }
            };
            lemma_header_sound(prev.head, fmt, input.skip(blen));
        },
        None => {},
    }
}

/// What [`ChunkDemux::read_chunk`] returns when the framing is sound.
pub enum ChunkRead {
    /// The input does not yet hold a whole chunk.
    NeedMore,
    /// One chunk was taken from the front of the input.
    Taken { used: usize, message: Option<RtmpMessage> },
}

/// Whether what was returned says what the outcome says.
pub open spec fn read_agrees(r: Result<ChunkRead, ProtocolError>, outcome: ChunkOutcome) -> bool {
    match outcome {
        ChunkOutcome::NeedMore => r matches Ok(ChunkRead::NeedMore),
        ChunkOutcome::Malformed(e) => r matches Err(f) && f == e,
        ChunkOutcome::Taken { used, state, message } => match r {
            Ok(ChunkRead::Taken { used: u, message: m }) => u == used && match m {
                Some(got) => message == Some(got@),
                None => message is None,
            },
            _ => false,
        },
    }
}

/// The first byte of a chunk, split by shift and mask.
proof fn lemma_split_first(b: u8)
    by (bit_vector)
    ensures
        (b >> 6) == b / 64,
        (b & 0x3F) == b % 64,
        b / 64 <= 3,
{
}

impl ChunkDemux {
    /// A demultiplexer that has seen nothing, with the default chunk size.
    pub fn new() -> (d: Self)
        ensures
            d@.wf(),
            d@.chunk_size == DEFAULT_CHUNK_SIZE,
            d@.streams == Map::<u32, ChunkStateView>::empty(),
    {
        let d = ChunkDemux { chunk_size: DEFAULT_CHUNK_SIZE, chunks: HashMap::new() };
        d
    }

    /// The chunk size that the peer is read with.
    pub fn chunk_size(&self) -> (n: u32)
        ensures
            n == self@.chunk_size,
    {
        self.chunk_size
    }

    /// Adopts the chunk size that the peer announced. Zero is refused.
    pub fn set_chunk_size(&mut self, n: u32) -> (r: Result<(), ProtocolError>)
        requires
            old(self)@.wf(),
        ensures
            final(self)@.wf(),
            n == 0 ==> r == Err::<(), ProtocolError>(ProtocolError::ZeroChunkSize) && final(self)@
                == old(self)@,
            n != 0 ==> r == Ok::<(), ProtocolError>(()) && final(self)@ == (DemuxView {
                chunk_size: n,
                ..old(self)@
            }),
    {
        if n == 0 {
            Err(ProtocolError::ZeroChunkSize)
        } else {
            self.chunk_size = n;
            Ok(())
        }
    }

    /// Takes one chunk from the front of `input`, if a whole chunk is there.
    pub fn read_chunk(&mut self, input: &[u8]) -> (r: Result<ChunkRead, ProtocolError>)
        requires
            old(self)@.wf(),
        ensures
            read_agrees(r, chunk_step(old(self)@, input@)),
            final(self)@.wf(),
            final(self)@ == match chunk_step(old(self)@, input@) {
                ChunkOutcome::Taken { used, state, message } => state,
                _ => old(self)@,
            },
            match r {
                Ok(ChunkRead::Taken { used, message }) => 1 <= used <= input@.len() && (
                message matches Some(m) ==> m@.payload.len() <= 0xFF_FFFF),
                _ => true,
            },
    {
        broadcast use group_hash_axioms;

        reveal(chunk_step);
        if input.len() < 1 {
            return Ok(ChunkRead::NeedMore);
        }
        let first = input[0];
        proof {
            lemma_split_first(first);
        }
        let fmt = first >> 6;
        let low = first & 0x3F;
        let cs_id: u32;
        let blen: usize;
        if low == 0 {
            if input.len() < 2 {
                return Ok(ChunkRead::NeedMore);
            }
            cs_id = input[1] as u32 + 64;
            blen = 2;
        } else if low == 1 {
            if input.len() < 3 {
                return Ok(ChunkRead::NeedMore);
            }
            cs_id = (input[2] as u32) * 256 + input[1] as u32 + 64;
            blen = 3;
        } else {
            cs_id = low as u32;
            blen = 1;
        }
        let prev_head = match self.chunks.get(&cs_id) {
            Some(st) => st.head,
            None => {
                if fmt != 0 {
                    return Err(ProtocolError::MissingHeader);
                }
                ChunkHeader {
                    timestamp: 0,
                    msg_length: 0,
                    msg_type_id: 0,
                    msg_stream_id: 0,
                    bytes_left: 0,
                    last_delta: 0,
                    has_extended_ts: false,
                    ext_field: 0,
                }
            },
        };
        proof {
            lemma_header_sound(prev_head, fmt, input@.skip(blen as int));
        }
        let parsed = parse_message_header(
            prev_head,
            fmt,
            slice_subrange(input, blen, input.len()),
        );
        let (head, len, fresh) = match parsed {
            Err(e) => {
                return Err(e);
            },
            Ok(None) => {
                return Ok(ChunkRead::NeedMore);
            },
            Ok(Some(t)) => t,
        };
        let take = if head.bytes_left <= self.chunk_size {
            head.bytes_left
        } else {
            self.chunk_size
        } as usize;
        let start = blen + len;
        if input.len() - start < take {
            return Ok(ChunkRead::NeedMore);
        }
        let ghost before = self@;
        let mut st = match self.chunks.remove(&cs_id) {
            Some(st) => st,
            None => ChunkState { head, buf: buf_with_capacity(0) },
        };
        if fresh {
            buf_clear(&mut st.buf);
        }
        buf_put_slice(&mut st.buf, slice_subrange(input, start, start + take));
        let left = head.bytes_left - take as u32;
        st.head = ChunkHeader { bytes_left: left, ..head };
        let message = if left == 0 {
            let payload = buf_freeze(buf_split(&mut st.buf));
            Some(
                RtmpMessage {
                    chunk_stream_id: cs_id,
                    message_type: head.msg_type_id,
                    message_stream_id: head.msg_stream_id,
                    timestamp: head.timestamp,
                    payload,
                },
            )
        } else {
            None
        };
        let ghost held = st@;
        self.chunks.insert(cs_id, st);
        proof {
            assert(self@.streams =~= before.streams.insert(cs_id, held));
        }
        Ok(ChunkRead::Taken { used: start + take, message })
    }
}

} // verus!
