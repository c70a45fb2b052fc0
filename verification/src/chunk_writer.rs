//! The chunk stream as a sender lays it out, and the proof that the
//! demultiplexer reads back what was laid out.

use crate::bytebuf::be32;
use crate::chunk::{
    basic_header, blank_header, chunk_step, lemma_chunk_reads_alike_with_more,
    lemma_chunk_step_sound, message_header, min_u32, ChunkHeader, ChunkOutcome, ChunkStateView,
    DemuxView, HeaderOutcome, MessageView,
};
use crate::flv::{joined, lemma_joined_concat, lemma_joined_one};
use crate::wire::{
    be24, le32, lemma_be24_roundtrip, lemma_be32_roundtrip, lemma_le32_roundtrip, u24_of,
    u32_of,
};
use vstd::prelude::*;

verus! {

/// The largest chunk-stream id that a basic header can carry.
pub const MAX_CHUNK_STREAM_ID: u32 = 65599;

/// The basic header of a chunk: one byte for ids up to 63, two for ids up
/// to 319, three beyond.
pub open spec fn basic_header_bytes(fmt: u8, cs_id: u32) -> Seq<u8> {
    if cs_id < 64 {
        seq![(fmt * 64 + cs_id) as u8]
    } else if cs_id < 320 {
        seq![(fmt * 64) as u8, (cs_id - 64) as u8]
    } else {
        seq![(fmt * 64 + 1) as u8, ((cs_id - 64) % 256) as u8, ((cs_id - 64) / 256) as u8]
    }
}

/// The 24-bit timestamp field: the value itself, or `0xFFFFFF` where the
/// value does not fit below that.
pub open spec fn timestamp_field(value: u32) -> Seq<u8> {
    if value >= 0xFF_FFFF {
        be24(0xFF_FFFF)
    } else {
        be24(value as int)
    }
}

/// The extended timestamp: the value in 32 bits, present where the 24-bit
/// field says `0xFFFFFF`.
pub open spec fn extended_field(value: u32) -> Seq<u8> {
    if value >= 0xFF_FFFF {
        be32(value)
    } else {
        Seq::empty()
    }
}

/// A format-0 message header.
pub open spec fn header0_bytes(
    timestamp: u32,
    msg_length: u32,
    msg_type_id: u8,
    msg_stream_id: u32,
) -> Seq<u8> {
    timestamp_field(timestamp) + be24(msg_length as int) + seq![msg_type_id] + le32(msg_stream_id)
        + extended_field(timestamp)
}

/// A format-1 message header.
pub open spec fn header1_bytes(delta: u32, msg_length: u32, msg_type_id: u8) -> Seq<u8> {
    timestamp_field(delta) + be24(msg_length as int) + seq![msg_type_id] + extended_field(delta)
}

/// A format-2 message header.
pub open spec fn header2_bytes(delta: u32) -> Seq<u8> {
    timestamp_field(delta) + extended_field(delta)
}

/// What a format-3 chunk carries in place of a message header: the
/// extended timestamp, where the chunk stream's last header had one.
pub open spec fn header3_bytes(sticky: bool, value: u32) -> Seq<u8> {
    if sticky {
        be32(value)
    } else {
        Seq::empty()
    }
}

/// The basic header reads back: format, chunk-stream id and length are
/// those that were written, whatever follows.
pub proof fn lemma_basic_header_round_trip(fmt: u8, cs_id: u32, rest: Seq<u8>)
    requires
        fmt <= 3,
        2 <= cs_id <= MAX_CHUNK_STREAM_ID,
    ensures
        basic_header(basic_header_bytes(fmt, cs_id) + rest) == Some(
            (fmt, cs_id, basic_header_bytes(fmt, cs_id).len() as int),
        ),
{
    let b = basic_header_bytes(fmt, cs_id);
    let all = b + rest;
    assert(all[0] == b[0]);
    if cs_id >= 64 {
        assert(all[1] == b[1]);
        if cs_id >= 320 {
            assert(all[2] == b[2]);
        }
    }
}

/// The timestamp field and its extension read back as the value.
proof fn lemma_timestamp_round_trip(value: u32)
    ensures
        timestamp_field(value).len() == 3,
        value >= 0xFF_FFFF ==> u24_of(
            timestamp_field(value)[0],
            timestamp_field(value)[1],
            timestamp_field(value)[2],
        ) == 0xFF_FFFF && extended_field(value).len() == 4 && u32_of(
            extended_field(value)[0],
            extended_field(value)[1],
            extended_field(value)[2],
            extended_field(value)[3],
        ) == value,
        value < 0xFF_FFFF ==> u24_of(
            timestamp_field(value)[0],
            timestamp_field(value)[1],
            timestamp_field(value)[2],
        ) == value && extended_field(value).len() == 0,
{
}

/// A format-0 header reads back: the chunk stream remembers exactly the
/// timestamp, length, type and message stream id that were written, a
/// message begins, and the header takes as many bytes as were written.
pub proof fn lemma_header0_round_trip(
    prev: ChunkHeader,
    timestamp: u32,
    msg_length: u32,
    msg_type_id: u8,
    msg_stream_id: u32,
    rest: Seq<u8>,
)
    requires
        msg_length <= 0xFF_FFFF,
    ensures
        message_header(
            prev,
            0,
            header0_bytes(timestamp, msg_length, msg_type_id, msg_stream_id) + rest,
        ) == (HeaderOutcome::Parsed {
            head: ChunkHeader {
                timestamp,
                msg_length,
                msg_type_id,
                msg_stream_id,
                bytes_left: msg_length,
                last_delta: 0,
                has_extended_ts: timestamp >= 0xFF_FFFF,
                ext_field: timestamp,
            },
            len: header0_bytes(timestamp, msg_length, msg_type_id, msg_stream_id).len() as int,
            fresh: true,
        }),
{
    reveal(message_header);
    let h = header0_bytes(timestamp, msg_length, msg_type_id, msg_stream_id);
    let all = h + rest;
    let tf = timestamp_field(timestamp);
    let ef = extended_field(timestamp);
    lemma_timestamp_round_trip(timestamp);
    lemma_be24_roundtrip(msg_length as int);
    lemma_le32_roundtrip(msg_stream_id);
    let l = be24(msg_length as int);
    let s = le32(msg_stream_id);
    assert(all[0] == tf[0] && all[1] == tf[1] && all[2] == tf[2]);
    assert(all[3] == l[0] && all[4] == l[1] && all[5] == l[2]);
    assert(all[6] == msg_type_id);
    assert(all[7] == s[0] && all[8] == s[1] && all[9] == s[2] && all[10] == s[3]);
    if timestamp >= 0xFF_FFFF {
        assert(all[11] == ef[0] && all[12] == ef[1] && all[13] == ef[2] && all[14] == ef[3]);
    }
}

/// A format-1 header reads back: the delta is added to the remembered
/// timestamp modulo 2^32, length and type are those written, the message
/// stream id stays, and a message begins.
pub proof fn lemma_header1_round_trip(
    prev: ChunkHeader,
    delta: u32,
    msg_length: u32,
    msg_type_id: u8,
    rest: Seq<u8>,
)
    requires
        msg_length <= 0xFF_FFFF,
    ensures
        message_header(prev, 1, header1_bytes(delta, msg_length, msg_type_id) + rest) == (
        HeaderOutcome::Parsed {
            head: ChunkHeader {
                timestamp: prev.timestamp.wrapping_add(delta),
                msg_length,
                msg_type_id,
                msg_stream_id: prev.msg_stream_id,
                bytes_left: msg_length,
                last_delta: delta,
                has_extended_ts: delta >= 0xFF_FFFF,
                ext_field: delta,
            },
            len: header1_bytes(delta, msg_length, msg_type_id).len() as int,
            fresh: true,
        }),
{
    reveal(message_header);
    let h = header1_bytes(delta, msg_length, msg_type_id);
    let all = h + rest;
    let tf = timestamp_field(delta);
    let ef = extended_field(delta);
    lemma_timestamp_round_trip(delta);
    lemma_be24_roundtrip(msg_length as int);
    let l = be24(msg_length as int);
    assert(all[0] == tf[0] && all[1] == tf[1] && all[2] == tf[2]);
    assert(all[3] == l[0] && all[4] == l[1] && all[5] == l[2]);
    assert(all[6] == msg_type_id);
    if delta >= 0xFF_FFFF {
        assert(all[7] == ef[0] && all[8] == ef[1] && all[9] == ef[2] && all[10] == ef[3]);
    }
}

/// A format-2 header reads back: the delta is added to the remembered
/// timestamp modulo 2^32 and everything else stays; a message begins
/// exactly where the previous one was complete.
pub proof fn lemma_header2_round_trip(prev: ChunkHeader, delta: u32, rest: Seq<u8>)
    ensures
        message_header(prev, 2, header2_bytes(delta) + rest) == (HeaderOutcome::Parsed {
            head: ChunkHeader {
                timestamp: prev.timestamp.wrapping_add(delta),
                bytes_left: if prev.bytes_left == 0 {
                    prev.msg_length
                } else {
                    prev.bytes_left
                },
                last_delta: delta,
                has_extended_ts: delta >= 0xFF_FFFF,
                ext_field: delta,
                ..prev
            },
            len: header2_bytes(delta).len() as int,
            fresh: prev.bytes_left == 0,
        }),
{
    reveal(message_header);
    let h = header2_bytes(delta);
    let all = h + rest;
    let tf = timestamp_field(delta);
    let ef = extended_field(delta);
    lemma_timestamp_round_trip(delta);
    assert(all[0] == tf[0] && all[1] == tf[1] && all[2] == tf[2]);
    if delta >= 0xFF_FFFF {
        assert(all[3] == ef[0] && all[4] == ef[1] && all[5] == ef[2] && all[6] == ef[3]);
    }
}

/// A format-3 chunk within a message reads back as a continuation: nothing
/// that the chunk stream remembers changes, provided the chunk repeats the
/// extended timestamp where the chunk stream has one.
pub proof fn lemma_header3_continues(prev: ChunkHeader, rest: Seq<u8>)
    requires
        prev.bytes_left > 0,
    ensures
        message_header(prev, 3, header3_bytes(prev.has_extended_ts, prev.ext_field) + rest) == (
        HeaderOutcome::Parsed {
            head: prev,
            len: header3_bytes(prev.has_extended_ts, prev.ext_field).len() as int,
            fresh: false,
        }),
{
    reveal(message_header);
}

/// A format-3 chunk between messages reads back as the start of a message
/// like the last one: the extended timestamp that it carries, or else the
/// remembered delta, is added to the timestamp modulo 2^32.
pub proof fn lemma_header3_starts(prev: ChunkHeader, value: u32, rest: Seq<u8>)
    requires
        prev.bytes_left == 0,
    ensures
        message_header(prev, 3, header3_bytes(prev.has_extended_ts, value) + rest) == (
        HeaderOutcome::Parsed {
            head: ChunkHeader {
                timestamp: prev.timestamp.wrapping_add(
                    if prev.has_extended_ts {
                        value
                    } else {
                        prev.last_delta
                    },
                ),
                bytes_left: prev.msg_length,
                ext_field: if prev.has_extended_ts {
                    value
                } else {
                    prev.ext_field
                },
                ..prev
            },
            len: header3_bytes(prev.has_extended_ts, value).len() as int,
            fresh: true,
        }),
{
    reveal(message_header);
    if prev.has_extended_ts {
        lemma_be32_roundtrip(value);
    }
}

/// The chunk stream `cs_id` between messages, after a message with the
/// header `head`.
pub open spec fn idle_after(head: ChunkHeader) -> ChunkStateView {
    ChunkStateView { head: ChunkHeader { bytes_left: 0, ..head }, buf: Seq::empty() }
}

/// A whole chunk reads back. Where the bytes after the basic header open
/// with a message header that takes `header.len()` bytes, and the chunk
/// carries as many payload bytes as the message lacks, up to the chunk
/// size, the chunk is taken whole, whatever follows it: its payload joins
/// what the chunk stream holds, and a message that lacks nothing more is
/// handed out.
pub proof fn lemma_chunk_round_trip(
    d: DemuxView,
    fmt: u8,
    cs_id: u32,
    header: Seq<u8>,
    body: Seq<u8>,
    rest: Seq<u8>,
    head: ChunkHeader,
    fresh: bool,
)
    requires
        fmt <= 3,
        2 <= cs_id <= MAX_CHUNK_STREAM_ID,
        fmt != 0 ==> d.streams.contains_key(cs_id),
        message_header(
            if d.streams.contains_key(cs_id) {
                d.streams[cs_id].head
            } else {
                blank_header()
            },
            fmt,
            header + body + rest,
        ) == (HeaderOutcome::Parsed { head, len: header.len() as int, fresh }),
        body.len() == min_u32(head.bytes_left, d.chunk_size),
    ensures
        chunk_step(d, basic_header_bytes(fmt, cs_id) + header + body + rest) == ({
            let kept = if fresh || !d.streams.contains_key(cs_id) {
                Seq::<u8>::empty()
            } else {
                d.streams[cs_id].buf
            };
            let left = (head.bytes_left - body.len()) as u32;
            let used = (basic_header_bytes(fmt, cs_id).len() + header.len() + body.len()) as int;
            if left == 0 {
                ChunkOutcome::Taken {
                    used,
                    state: DemuxView { streams: d.streams.insert(cs_id, idle_after(head)), ..d },
                    message: Some(
                        MessageView {
                            chunk_stream_id: cs_id,
                            message_type: head.msg_type_id,
                            message_stream_id: head.msg_stream_id,
                            timestamp: head.timestamp,
                            payload: kept + body,
                        },
                    ),
                }
            } else {
                ChunkOutcome::Taken {
                    used,
                    state: DemuxView {
                        streams: d.streams.insert(
                            cs_id,
                            ChunkStateView {
                                head: ChunkHeader { bytes_left: left, ..head },
                                buf: kept + body,
                            },
                        ),
                        ..d
                    },
                    message: None,
                }
            }
        }),
{
    reveal(chunk_step);
    let b = basic_header_bytes(fmt, cs_id);
    let input = b + header + body + rest;
    assert(input.skip(b.len() as int) =~= header + body + rest);
    let start = (b.len() + header.len()) as int;
    assert(input.subrange(start, start + body.len()) =~= body);
}

/// What a run of the demultiplexer over a whole input gives: the state it
/// ends in and the messages it hands out, in order. `None` where a chunk is
/// malformed or the input ends within a chunk.
pub open spec fn demux_run(d: DemuxView, input: Seq<u8>) -> Option<(DemuxView, Seq<MessageView>)>
    decreases input.len(),
{
    if input.len() == 0 {
        Some((d, Seq::empty()))
    } else {
        match chunk_step(d, input) {
            ChunkOutcome::Taken { used, state, message } => {
                if used < 1 || used > input.len() {
                    None
                } else {
                    then_run(
                        match message {
                            Some(m) => seq![m],
                            None => Seq::empty(),
                        },
                        demux_run(state, input.skip(used)),
                    )
                }
            },
            _ => None,
        }
    }
}

/// Messages handed out first, then a run.
pub open spec fn then_run(first: Seq<MessageView>, later: Option<(DemuxView, Seq<MessageView>)>)
    -> Option<(DemuxView, Seq<MessageView>)> {
    match later {
        Some((end, messages)) => Some((end, first + messages)),
        None => None,
    }
}

/// The chunks of a message after its first: each opens with a format-3
/// basic header, repeats the extended timestamp where the message has one,
/// and carries up to `size` bytes of what is left of the payload.
pub open spec fn later_chunks(
    cs_id: u32,
    sticky: bool,
    ext: u32,
    payload: Seq<u8>,
    size: nat,
) -> Seq<u8>
    decreases payload.len(),
{
    if payload.len() == 0 || size == 0 {
        Seq::empty()
    } else {
        let n = if payload.len() <= size {
            payload.len() as int
        } else {
            size as int
        };
        basic_header_bytes(3, cs_id) + header3_bytes(sticky, ext) + payload.take(n) + later_chunks(
            cs_id,
            sticky,
            ext,
            payload.skip(n),
            size,
        )
    }
}

/// A message as a sender lays it out in chunks of `size` bytes: a format-0
/// chunk with the first bytes of the payload, then the later chunks.
pub open spec fn message_bytes(m: MessageView, size: nat) -> Seq<u8> {
    let n = if m.payload.len() <= size {
        m.payload.len() as int
    } else {
        size as int
    };
    basic_header_bytes(0, m.chunk_stream_id) + header0_bytes(
        m.timestamp,
        m.payload.len() as u32,
        m.message_type,
        m.message_stream_id,
    ) + m.payload.take(n) + later_chunks(
        m.chunk_stream_id,
        m.timestamp >= 0xFF_FFFF,
        m.timestamp,
        m.payload.skip(n),
        size,
    )
}

/// The header that a chunk stream remembers after the message `m` arrived
/// in a format-0 chunk.
pub open spec fn head_of(m: MessageView) -> ChunkHeader {
    ChunkHeader {
        timestamp: m.timestamp,
        msg_length: m.payload.len() as u32,
        msg_type_id: m.message_type,
        msg_stream_id: m.message_stream_id,
        bytes_left: m.payload.len() as u32,
        last_delta: 0,
        has_extended_ts: m.timestamp >= 0xFF_FFFF,
        ext_field: m.timestamp,
    }
}

/// The later chunks of a message read back. A chunk stream that holds the
/// first part of a message and is fed the later chunks of the rest hands
/// out the whole message at the last chunk and nothing before, and goes on
/// with what follows.
pub proof fn lemma_later_chunks_round_trip(
    d: DemuxView,
    cs_id: u32,
    remaining: Seq<u8>,
    rest: Seq<u8>,
)
    requires
        d.wf(),
        2 <= cs_id <= MAX_CHUNK_STREAM_ID,
        d.streams.contains_key(cs_id),
        d.streams[cs_id].head.bytes_left == remaining.len(),
        remaining.len() > 0,
    ensures
        demux_run(
            d,
            later_chunks(
                cs_id,
                d.streams[cs_id].head.has_extended_ts,
                d.streams[cs_id].head.ext_field,
                remaining,
                d.chunk_size as nat,
            ) + rest,
        ) == then_run(
            seq![
                MessageView {
                    chunk_stream_id: cs_id,
                    message_type: d.streams[cs_id].head.msg_type_id,
                    message_stream_id: d.streams[cs_id].head.msg_stream_id,
                    timestamp: d.streams[cs_id].head.timestamp,
                    payload: d.streams[cs_id].buf + remaining,
                },
            ],
            demux_run(
                DemuxView {
                    streams: d.streams.insert(cs_id, idle_after(d.streams[cs_id].head)),
                    ..d
                },
                rest,
            ),
        ),
    decreases remaining.len(),
{
    let st = d.streams[cs_id];
    let head = st.head;
    let size = d.chunk_size as nat;
    let n = if remaining.len() <= size {
        remaining.len() as int
    } else {
        size as int
    };
    let b = basic_header_bytes(3, cs_id);
    let h = header3_bytes(head.has_extended_ts, head.ext_field);
    let body = remaining.take(n);
    let after = later_chunks(cs_id, head.has_extended_ts, head.ext_field, remaining.skip(n), size);
    let tail = after + rest;
    let input = later_chunks(cs_id, head.has_extended_ts, head.ext_field, remaining, size) + rest;
    assert(input =~= b + h + body + tail);
    assert(h + body + tail =~= h + (body + tail));
    lemma_header3_continues(head, body + tail);
    lemma_chunk_round_trip(d, 3, cs_id, h, body, tail, head, false);
    let used = (b.len() + h.len() + body.len()) as int;
    assert(input.skip(used) =~= tail);
    let left = (head.bytes_left - body.len()) as u32;
    if left == 0 {
        assert(body =~= remaining);
    } else {
        let next = DemuxView {
            streams: d.streams.insert(
                cs_id,
                ChunkStateView { head: ChunkHeader { bytes_left: left, ..head }, buf: st.buf + body },
            ),
            ..d
        };
        lemma_later_chunks_round_trip(next, cs_id, remaining.skip(n), rest);
        assert(st.buf + body + remaining.skip(n) =~= st.buf + remaining);
        assert(next.streams.insert(cs_id, idle_after(next.streams[cs_id].head)) =~= d.streams.insert(
            cs_id,
            idle_after(head),
        ));
    }
}

/// A message reads back. Whatever the demultiplexer has seen before, a
/// message laid out in chunks of the demultiplexer's chunk size is handed
/// out whole and unchanged when its last chunk arrives, and nothing is
/// handed out before; the run goes on with whatever follows, from a state
/// in which the message's chunk stream is between messages.
pub proof fn lemma_message_round_trip(d: DemuxView, m: MessageView, rest: Seq<u8>)
    requires
        d.wf(),
        2 <= m.chunk_stream_id <= MAX_CHUNK_STREAM_ID,
        m.payload.len() <= 0xFF_FFFF,
    ensures
        demux_run(d, message_bytes(m, d.chunk_size as nat) + rest) == then_run(
            seq![m],
            demux_run(
                DemuxView {
                    streams: d.streams.insert(m.chunk_stream_id, idle_after(head_of(m))),
                    ..d
                },
                rest,
            ),
        ),
{
    let cs_id = m.chunk_stream_id;
    let size = d.chunk_size as nat;
    let head = head_of(m);
    let n = if m.payload.len() <= size {
        m.payload.len() as int
    } else {
        size as int
    };
    let b = basic_header_bytes(0, cs_id);
    let h = header0_bytes(m.timestamp, m.payload.len() as u32, m.message_type, m.message_stream_id);
    let body = m.payload.take(n);
    let after = later_chunks(cs_id, head.has_extended_ts, head.ext_field, m.payload.skip(n), size);
    let tail = after + rest;
    let input = message_bytes(m, size) + rest;
    assert(input =~= b + h + body + tail);
    assert(h + body + tail =~= h + (body + tail));
    let prev = if d.streams.contains_key(cs_id) {
        d.streams[cs_id].head
    } else {
        blank_header()
    };
    lemma_header0_round_trip(
        prev,
        m.timestamp,
        m.payload.len() as u32,
        m.message_type,
        m.message_stream_id,
        body + tail,
    );
    lemma_chunk_round_trip(d, 0, cs_id, h, body, tail, head, true);
    let used = (b.len() + h.len() + body.len()) as int;
    assert(input.skip(used) =~= tail);
    let left = (head.bytes_left - body.len()) as u32;
    let end = DemuxView { streams: d.streams.insert(cs_id, idle_after(head)), ..d };
    if left == 0 {
        assert(Seq::<u8>::empty() + body =~= m.payload);
    } else {
        let next = DemuxView {
            streams: d.streams.insert(
                cs_id,
                ChunkStateView { head: ChunkHeader { bytes_left: left, ..head }, buf: body },
            ),
            ..d
        };
        lemma_later_chunks_round_trip(next, cs_id, m.payload.skip(n), rest);
        assert(body + m.payload.skip(n) =~= m.payload);
        assert(next.streams.insert(cs_id, idle_after(next.streams[cs_id].head)) =~= end.streams);
    }
}

/// Messages laid out one after the other, each in chunks of `size` bytes.
pub open spec fn messages_bytes(messages: Seq<MessageView>, size: nat) -> Seq<u8>
    decreases messages.len(),
{
    if messages.len() == 0 {
        Seq::empty()
    } else {
        message_bytes(messages[0], size) + messages_bytes(messages.skip(1), size)
    }
}

/// Whether a message can be laid out: its chunk-stream id fits a basic
/// header and its payload length fits 24 bits.
pub open spec fn sendable(m: MessageView) -> bool {
    2 <= m.chunk_stream_id <= MAX_CHUNK_STREAM_ID && m.payload.len() <= 0xFF_FFFF
}

/// What was sent is what is reassembled. Any run of messages, on any chunk
/// streams, laid out in chunks of the demultiplexer's chunk size, is handed
/// out by the demultiplexer message for message, in order and unchanged,
/// whatever the demultiplexer has seen before.
pub proof fn lemma_messages_round_trip(d: DemuxView, messages: Seq<MessageView>)
    requires
        d.wf(),
        forall|i: int| 0 <= i < messages.len() ==> sendable(#[trigger] messages[i]),
    ensures
        demux_run(d, messages_bytes(messages, d.chunk_size as nat)) matches Some((end, got))
            && got == messages && end.wf() && end.chunk_size == d.chunk_size,
    decreases messages.len(),
{
    if messages.len() > 0 {
        let m = messages[0];
        let others = messages.skip(1);
        let rest = messages_bytes(others, d.chunk_size as nat);
        let next = DemuxView {
            streams: d.streams.insert(m.chunk_stream_id, idle_after(head_of(m))),
            ..d
        };
        assert(next.wf()) by {
            assert forall|id: u32| #[trigger] next.streams.contains_key(id) implies next.streams[id].wf() by {
                if id != m.chunk_stream_id {
                    assert(d.streams.contains_key(id));
                }
            }
        }
        assert forall|i: int| 0 <= i < others.len() implies sendable(#[trigger] others[i]) by {
            assert(others[i] == messages[i + 1]);
        }
        lemma_messages_round_trip(next, others);
        lemma_message_round_trip(d, m, rest);
    }
}

/// Whether two demultiplexers use the same chunk size and hold the same
/// for the chunk stream `id`.
pub open spec fn agree_on(d: DemuxView, e: DemuxView, id: u32) -> bool {
    &&& d.chunk_size == e.chunk_size
    &&& d.streams.contains_key(id) == e.streams.contains_key(id)
    &&& d.streams.contains_key(id) ==> d.streams[id] == e.streams[id]
}

/// The chunk stream that the chunk at the front of `input` belongs to.
pub open spec fn stream_of(input: Seq<u8>) -> Option<u32> {
    match basic_header(input) {
        Some((_, id, _)) => Some(id),
        None => None,
    }
}

/// A chunk is read by what its own chunk stream holds, and by nothing else.
/// Two demultiplexers that agree on a chunk's stream read the chunk alike
/// and agree on that stream afterwards; and a chunk leaves every chunk
/// stream but its own as it was, and completes messages of its own stream
/// only.
pub proof fn lemma_chunk_is_local(d: DemuxView, e: DemuxView, input: Seq<u8>, id: u32)
    requires
        agree_on(d, e, id),
    ensures
        stream_of(input) == Some(id) ==> match chunk_step(d, input) {
            ChunkOutcome::NeedMore => chunk_step(e, input) == ChunkOutcome::NeedMore,
            ChunkOutcome::Malformed(err) => chunk_step(e, input) == ChunkOutcome::Malformed(err),
            ChunkOutcome::Taken { used, state, message } => (chunk_step(e, input)
                matches ChunkOutcome::Taken { used: u, state: s, message: m } && u == used && m
                == message && agree_on(state, s, id)) && (message matches Some(m)
                ==> m.chunk_stream_id == id),
        },
        stream_of(input) != Some(id) ==> (chunk_step(d, input) matches ChunkOutcome::Taken {
            used,
            state,
            message,
        } ==> agree_on(state, d, id) && (message matches Some(m) ==> m.chunk_stream_id != id)),
{
    reveal(chunk_step);
}

/// A run of the demultiplexer over whole chunks, one list entry each.
pub open spec fn run_chunks(d: DemuxView, chunks: Seq<Seq<u8>>) -> Option<
    (DemuxView, Seq<MessageView>),
>
    decreases chunks.len(),
{
    if chunks.len() == 0 {
        Some((d, Seq::empty()))
    } else {
        match chunk_step(d, chunks[0]) {
            ChunkOutcome::Taken { used, state, message } => {
                if used != chunks[0].len() {
                    None
                } else {
                    then_run(
                        match message {
                            Some(m) => seq![m],
                            None => Seq::empty(),
                        },
                        run_chunks(state, chunks.skip(1)),
                    )
                }
            },
            _ => None,
        }
    }
}

/// A run over whole chunks is the run over their bytes: where the chunks of
/// a list are taken one by one, the demultiplexer fed the bytes of the list
/// in one piece ends in the same state with the same messages.
pub proof fn lemma_run_of_joined(d: DemuxView, chunks: Seq<Seq<u8>>)
    requires
        d.wf(),
        run_chunks(d, chunks) is Some,
    ensures
        demux_run(d, joined(chunks)) == run_chunks(d, chunks),
    decreases chunks.len(),
{
    if chunks.len() > 0 {
        let c = chunks[0];
        let others = chunks.skip(1);
        assert(chunks =~= seq![c] + others);
        lemma_joined_concat(seq![c], others);
        lemma_joined_one(c);
        lemma_chunk_step_sound(d, c);
        lemma_chunk_reads_alike_with_more(d, c, joined(others));
        match chunk_step(d, c) {
            ChunkOutcome::Taken { used, state, message } => {
                assert(joined(chunks).skip(used) =~= joined(others));
                lemma_run_of_joined(state, others);
            },
            _ => {},
        }
    }
}

/// The chunks of a list that belong to the chunk stream `id`, in order.
pub open spec fn chunks_on(chunks: Seq<Seq<u8>>, id: u32) -> Seq<Seq<u8>>
    decreases chunks.len(),
{
    if chunks.len() == 0 {
        Seq::empty()
    } else if stream_of(chunks[0]) == Some(id) {
        seq![chunks[0]] + chunks_on(chunks.skip(1), id)
    } else {
        chunks_on(chunks.skip(1), id)
    }
}

/// The messages of a list that arrived on the chunk stream `id`, in order.
pub open spec fn messages_on(messages: Seq<MessageView>, id: u32) -> Seq<MessageView>
    decreases messages.len(),
{
    if messages.len() == 0 {
        Seq::empty()
    } else if messages[0].chunk_stream_id == id {
        seq![messages[0]] + messages_on(messages.skip(1), id)
    } else {
        messages_on(messages.skip(1), id)
    }
}

/// Filtering a joined list is joining the filtered lists.
proof fn lemma_messages_on_concat(a: Seq<MessageView>, b: Seq<MessageView>, id: u32)
    ensures
        messages_on(a + b, id) == messages_on(a, id) + messages_on(b, id),
    decreases a.len(),
{
    if a.len() > 0 {
        assert((a + b).skip(1) =~= a.skip(1) + b);
        lemma_messages_on_concat(a.skip(1), b, id);
    }
}

/// Chunk streams do not disturb each other. However the chunks of several
/// chunk streams are interleaved, the messages that the demultiplexer
/// hands out for one chunk stream are those that it hands out when it is
/// fed the chunks of that stream alone, and it holds the same for that
/// stream in the end.
pub proof fn lemma_interleaving_is_harmless(
    d: DemuxView,
    e: DemuxView,
    chunks: Seq<Seq<u8>>,
    id: u32,
)
    requires
        agree_on(d, e, id),
        run_chunks(d, chunks) is Some,
    ensures
        run_chunks(e, chunks_on(chunks, id)) matches Some((end, got)) && got == messages_on(
            run_chunks(d, chunks).unwrap().1,
            id,
        ) && agree_on(run_chunks(d, chunks).unwrap().0, end, id),
    decreases chunks.len(),
{
    if chunks.len() > 0 {
        let c = chunks[0];
        let others = chunks.skip(1);
        lemma_chunk_is_local(d, e, c, id);
        match chunk_step(d, c) {
            ChunkOutcome::Taken { used, state, message } => {
                let first = match message {
                    Some(m) => seq![m],
                    None => Seq::<MessageView>::empty(),
                };
                let later = run_chunks(state, others).unwrap().1;
                lemma_messages_on_concat(first, later, id);
                if stream_of(c) == Some(id) {
                    let own = chunks_on(chunks, id);
                    assert(own.skip(1) =~= chunks_on(others, id));
                    match chunk_step(e, c) {
                        ChunkOutcome::Taken { used: u, state: s, message: m } => {
                            lemma_interleaving_is_harmless(state, s, others, id);
                            match message {
                                Some(mm) => {
                                    assert(messages_on(first, id) =~= first) by {
                                        assert(first.skip(1) =~= Seq::<MessageView>::empty());
                                        reveal_with_fuel(messages_on, 2);
                                    }
                                },
                                None => {},
                            }
                        },
                        _ => {},
                    }
                } else {
                    lemma_interleaving_is_harmless(state, e, others, id);
                    match message {
                        Some(mm) => {
                            assert(messages_on(first, id) =~= Seq::<MessageView>::empty()) by {
                                assert(first.skip(1) =~= Seq::<MessageView>::empty());
                                reveal_with_fuel(messages_on, 2);
                            }
                        },
                        None => {},
                    }
                }
            },
            _ => {},
        }
    }
}

} // verus!
