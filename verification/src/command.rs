//! What the server writes to the publisher: protocol control messages, AMF0
//! command replies, and the reply that each incoming command calls for.
//!
//! Every function appends to an output buffer and states the exact bytes it
//! appends; sending them is left to the caller.

use crate::amf0::{
    amf_num, amf_number, amf_object_end, amf_prop_num, amf_prop_str, amf_property, amf_str,
    amf_string, command_header, parse_cmd_header, MARKER_NULL, MARKER_OBJECT,
};
use crate::bytebuf::be32;
use crate::chunk::MessageView;
use crate::chunk_writer::{later_chunks, message_bytes};
use crate::wire::{append_bytes, be24, le32, push_u24, push_u32, push_u32_le};
use vstd::prelude::*;
use vstd::slice::slice_subrange;
use vstd::string::StringSliceAdditionalSpecFns;

verus! {

/// Chunk size of everything the server sends after the handshake.
pub const OUT_CHUNK_SIZE: usize = 4096;

/// Window acknowledgement size and peer bandwidth that the server announces.
pub const WINDOW_ACK_SIZE: u32 = 2_500_000;

/// Message type of an AMF0 command.
pub const TYPE_AMF0_COMMAND: u8 = 20;

/// The double 0.0.
pub const NUM_ZERO: u64 = 0;

/// The double 1.0.
pub const NUM_ONE: u64 = 0x3FF0_0000_0000_0000;

/// The double 31.0.
pub const NUM_THIRTY_ONE: u64 = 0x403F_0000_0000_0000;

/// A protocol control message: one format-0 chunk on chunk stream 2 with
/// timestamp 0 and message stream 0, the payload in one piece.
pub open spec fn proto_message(msg_type: u8, data: Seq<u8>) -> Seq<u8> {
    seq![0x02u8, 0u8, 0u8, 0u8] + be24(data.len() as int) + seq![msg_type] + le32(0) + data
}

/// The chunks after the first of a message: each opens with a format-3
/// basic header for the chunk stream and carries up to 4096 bytes.
pub open spec fn continuation_chunks(cs_id: u8, data: Seq<u8>) -> Seq<u8>
    decreases data.len(),
{
    if data.len() == 0 {
        Seq::empty()
    } else {
        let n = if data.len() < OUT_CHUNK_SIZE {
            data.len() as int
        } else {
            OUT_CHUNK_SIZE as int
        };
        seq![(0xC0 + cs_id) as u8] + data.subrange(0, n) + continuation_chunks(
            cs_id,
            data.subrange(n, data.len() as int),
        )
    }
}

/// An AMF0 command message in chunks of 4096 bytes: a format-0 header with
/// timestamp 0, the length in 24 bits, type 20 and the little-endian message
/// stream id; the first 4096 bytes of the body; then the continuation chunks.
pub open spec fn amf_message(cs_id: u8, stream_id: u32, data: Seq<u8>) -> Seq<u8> {
    let first = if data.len() < OUT_CHUNK_SIZE {
        data.len() as int
    } else {
        OUT_CHUNK_SIZE as int
    };
    seq![cs_id, 0u8, 0u8, 0u8] + be24(data.len() as int) + seq![TYPE_AMF0_COMMAND] + le32(
        stream_id,
    ) + data.subrange(0, first) + continuation_chunks(cs_id, data.subrange(first, data.len() as int))
}

/// The continuation chunks that the server writes are the later chunks of
/// a message without extended timestamp, at chunk size 4096.
pub proof fn lemma_continuation_is_later_chunks(cs_id: u8, data: Seq<u8>)
    requires
        2 <= cs_id < 64,
    ensures
        continuation_chunks(cs_id, data) == later_chunks(
            cs_id as u32,
            false,
            0,
            data,
            OUT_CHUNK_SIZE as nat,
        ),
    decreases data.len(),
{
    if data.len() > 0 {
        let n = if data.len() < OUT_CHUNK_SIZE {
            data.len() as int
        } else {
            OUT_CHUNK_SIZE as int
        };
        lemma_continuation_is_later_chunks(cs_id, data.subrange(n, data.len() as int));
    }
}

/// What the server writes is a message as a demultiplexer expects it: an
/// AMF0 command message is the layout, in chunks of 4096 bytes, of a
/// message of type 20 with timestamp 0. A peer that reads with that chunk
/// size therefore reassembles exactly the body that was written.
pub proof fn lemma_amf_message_is_message_bytes(cs_id: u8, stream_id: u32, data: Seq<u8>)
    requires
        2 <= cs_id < 64,
        data.len() <= 0xFF_FFFF,
    ensures
        amf_message(cs_id, stream_id, data) == message_bytes(
            MessageView {
                chunk_stream_id: cs_id as u32,
                message_type: TYPE_AMF0_COMMAND,
                message_stream_id: stream_id,
                timestamp: 0,
                payload: data,
            },
            OUT_CHUNK_SIZE as nat,
        ),
{
    let first = if data.len() < OUT_CHUNK_SIZE {
        data.len() as int
    } else {
        OUT_CHUNK_SIZE as int
    };
    lemma_continuation_is_later_chunks(cs_id, data.subrange(first, data.len() as int));
}

/// Appends a protocol control message of type `msg_type`.
pub fn send_proto(w: &mut Vec<u8>, msg_type: u8, data: &[u8])
    ensures
        final(w)@ == old(w)@ + proto_message(msg_type, data@),
{
    w.push(0x02);
    w.push(0);
    w.push(0);
    w.push(0);
    push_u24(w, data.len());
    w.push(msg_type);
    push_u32_le(w, 0);
    append_bytes(w, data);
}

proof fn lemma_fmt3_byte(cs_id: u8)
    by (bit_vector)
    requires
        cs_id < 64,
    ensures
        (0xC0u8 | cs_id) == 0xC0u8 + cs_id,
{
}

/// Appends an AMF0 command message on chunk stream `cs_id`, split into
/// chunks of 4096 bytes.
pub fn send_amf_msg(w: &mut Vec<u8>, cs_id: u8, stream_id: u32, data: &[u8])
    requires
        2 <= cs_id < 64,
    ensures
        final(w)@ == old(w)@ + amf_message(cs_id, stream_id, data@),
{
    w.push(cs_id);
    w.push(0);
    w.push(0);
    w.push(0);
    push_u24(w, data.len());
    w.push(TYPE_AMF0_COMMAND);
    push_u32_le(w, stream_id);
    let first = if data.len() < OUT_CHUNK_SIZE {
        data.len()
    } else {
        OUT_CHUNK_SIZE
    };
    append_bytes(w, slice_subrange(data, 0, first));
    let ghost head = w@;
    let ghost tail = data@.subrange(first as int, data@.len() as int);
    let mut off = first;
    while off < data.len()
        invariant
            first <= off <= data@.len(),
            2 <= cs_id < 64,
            tail == data@.subrange(first as int, data@.len() as int),
            w@ + continuation_chunks(cs_id, data@.subrange(off as int, data@.len() as int)) == head
                + continuation_chunks(cs_id, tail),
        decreases data@.len() - off,
    {
        let end = if data.len() - off < OUT_CHUNK_SIZE {
            data.len()
        } else {
            off + OUT_CHUNK_SIZE
        };
        let ghost rest = data@.subrange(off as int, data@.len() as int);
        proof {
            lemma_fmt3_byte(cs_id);
        }
        w.push(0xC0 | cs_id);
        append_bytes(w, slice_subrange(data, off, end));
        proof {
            let n = end - off;
            assert(rest.subrange(n, rest.len() as int) =~= data@.subrange(
                end as int,
                data@.len() as int,
            ));
        }
        off = end;
    }
}

/// Body of the reply to `connect`: `_result`, the transaction id, the
/// server properties and the connection status.
pub open spec fn connect_result_body(tx: u64) -> Seq<u8> {
    amf_string("_result".spec_bytes()) + amf_number(tx) + seq![MARKER_OBJECT] + amf_property(
        "fmsVer".spec_bytes(),
        amf_string("FMS/3,0,1,123".spec_bytes()),
    ) + amf_property("capabilities".spec_bytes(), amf_number(NUM_THIRTY_ONE)) + amf_object_end()
        + seq![MARKER_OBJECT] + amf_property(
        "level".spec_bytes(),
        amf_string("status".spec_bytes()),
    ) + amf_property(
        "code".spec_bytes(),
        amf_string("NetConnection.Connect.Success".spec_bytes()),
    ) + amf_property(
        "description".spec_bytes(),
        amf_string("Connection succeeded.".spec_bytes()),
    ) + amf_property("objectEncoding".spec_bytes(), amf_number(NUM_ZERO)) + amf_object_end()
}

/// Body of the reply to `createStream`: `_result`, the transaction id, null,
/// and the number 1, the id of the stream that was made.
pub open spec fn create_stream_result_body(tx: u64) -> Seq<u8> {
    amf_string("_result".spec_bytes()) + amf_number(tx) + seq![MARKER_NULL] + amf_number(NUM_ONE)
}

/// Body of the status message that follows `publish`.
pub open spec fn on_status_body() -> Seq<u8> {
    amf_string("onStatus".spec_bytes()) + amf_number(NUM_ZERO) + seq![MARKER_NULL] + seq![
        MARKER_OBJECT,
    ] + amf_property("level".spec_bytes(), amf_string("status".spec_bytes())) + amf_property(
        "code".spec_bytes(),
        amf_string("NetStream.Publish.Start".spec_bytes()),
    ) + amf_property(
        "description".spec_bytes(),
        amf_string("Start publishing".spec_bytes()),
    ) + amf_object_end()
}

/// Body of the reply to a command that only needs acknowledging: `_result`,
/// the transaction id, null.
pub open spec fn null_result_body(tx: u64) -> Seq<u8> {
    amf_string("_result".spec_bytes()) + amf_number(tx) + seq![MARKER_NULL]
}

fn push_object_end(a: &mut Vec<u8>)
    ensures
        final(a)@ == old(a)@ + amf_object_end(),
{
    a.push(0);
    a.push(0);
    a.push(0x09);
}

/// Appends the `_result` that answers `connect`.
pub fn send_connect_result(w: &mut Vec<u8>, tx_id: u64)
    ensures
        final(w)@ == old(w)@ + amf_message(3, 0, connect_result_body(tx_id)),
{
    let mut a: Vec<u8> = Vec::with_capacity(256);
    amf_str(&mut a, "_result");
    amf_num(&mut a, tx_id);
    a.push(MARKER_OBJECT);
    amf_prop_str(&mut a, "fmsVer", "FMS/3,0,1,123");
    amf_prop_num(&mut a, "capabilities", NUM_THIRTY_ONE);
    push_object_end(&mut a);
    a.push(MARKER_OBJECT);
    amf_prop_str(&mut a, "level", "status");
    amf_prop_str(&mut a, "code", "NetConnection.Connect.Success");
    amf_prop_str(&mut a, "description", "Connection succeeded.");
    amf_prop_num(&mut a, "objectEncoding", NUM_ZERO);
    push_object_end(&mut a);
    assert(a@ =~= connect_result_body(tx_id));
    send_amf_msg(w, 3, 0, a.as_slice());
}

/// Appends the `_result` that answers `createStream`.
pub fn send_create_stream_result(w: &mut Vec<u8>, tx_id: u64)
    ensures
        final(w)@ == old(w)@ + amf_message(3, 0, create_stream_result_body(tx_id)),
{
    let mut a: Vec<u8> = Vec::with_capacity(32);
    amf_str(&mut a, "_result");
    amf_num(&mut a, tx_id);
    a.push(MARKER_NULL);
    amf_num(&mut a, NUM_ONE);
    assert(a@ =~= create_stream_result_body(tx_id));
    send_amf_msg(w, 3, 0, a.as_slice());
}

/// Appends the `onStatus` message that says publishing has started.
pub fn send_on_status(w: &mut Vec<u8>)
    ensures
        final(w)@ == old(w)@ + amf_message(5, 1, on_status_body()),
{
    let mut a: Vec<u8> = Vec::with_capacity(128);
    amf_str(&mut a, "onStatus");
    amf_num(&mut a, NUM_ZERO);
    a.push(MARKER_NULL);
    a.push(MARKER_OBJECT);
    amf_prop_str(&mut a, "level", "status");
    amf_prop_str(&mut a, "code", "NetStream.Publish.Start");
    amf_prop_str(&mut a, "description", "Start publishing");
    push_object_end(&mut a);
    assert(a@ =~= on_status_body());
    send_amf_msg(w, 5, 1, a.as_slice());
}

/// Appends the `_result` that acknowledges a command.
pub fn send_null_result(w: &mut Vec<u8>, tx_id: u64)
    ensures
        final(w)@ == old(w)@ + amf_message(3, 0, null_result_body(tx_id)),
{
    let mut a: Vec<u8> = Vec::with_capacity(32);
    amf_str(&mut a, "_result");
    amf_num(&mut a, tx_id);
    a.push(MARKER_NULL);
    assert(a@ =~= null_result_body(tx_id));
    send_amf_msg(w, 3, 0, a.as_slice());
}

/// The commands that the server tells apart.
#[derive(Debug, Clone, Copy, PartialEq, Eq, Structural)]
pub enum Command {
    Connect,
    CreateStream,
    Publish,
    /// `releaseStream`, `FCPublish`, `deleteStream` or `FCUnpublish`.
    Acknowledged,
    /// Any other name: nothing is sent back.
    Ignored,
}

/// Which command a name stands for. Names are compared byte by byte.
pub open spec fn command_kind(name: Seq<u8>) -> Command {
    if name == "connect".spec_bytes() {
        Command::Connect
    } else if name == "createStream".spec_bytes() {
        Command::CreateStream
    } else if name == "publish".spec_bytes() {
        Command::Publish
    } else if name == "releaseStream".spec_bytes() || name == "FCPublish".spec_bytes() || name
        == "deleteStream".spec_bytes() || name == "FCUnpublish".spec_bytes() {
        Command::Acknowledged
    } else {
        Command::Ignored
    }
}

/// The burst that answers `connect`, in order: Window-Ack-Size (type 5),
/// Set-Peer-Bandwidth (type 6) with limit type 2, Set-Chunk-Size (type 1) to
/// 4096, and the `_result`.
pub open spec fn connect_reply(tx: u64) -> Seq<u8> {
    proto_message(5, be32(WINDOW_ACK_SIZE)) + proto_message(6, be32(WINDOW_ACK_SIZE) + seq![2u8])
        + proto_message(1, be32(OUT_CHUNK_SIZE as u32)) + amf_message(
        3,
        0,
        connect_result_body(tx),
    )
}

/// What answers `publish`: a User-Control message (type 4) that says
/// "Stream Begin" for stream 1, then the status message.
pub open spec fn publish_reply() -> Seq<u8> {
    proto_message(4, seq![0u8, 0u8, 0u8, 0u8, 0u8, 1u8]) + amf_message(5, 1, on_status_body())
}

/// The bytes that answer a command of the given kind and transaction id.
pub open spec fn reply_to(kind: Command, tx: u64) -> Seq<u8> {
    match kind {
        Command::Connect => connect_reply(tx),
        Command::CreateStream => amf_message(3, 0, create_stream_result_body(tx)),
        Command::Publish => publish_reply(),
        Command::Acknowledged => amf_message(3, 0, null_result_body(tx)),
        Command::Ignored => Seq::empty(),
    }
}

/// The bytes that answer the command message `data`: nothing where it does
/// not open with a command name.
pub open spec fn command_reply(data: Seq<u8>) -> Seq<u8> {
    match command_header(data) {
        Some((name, tx)) => reply_to(command_kind(name), tx),
        None => Seq::empty(),
    }
}

/// Whether two byte strings are the same.
pub fn bytes_equal(a: &[u8], b: &[u8]) -> (same: bool)
    ensures
        same == (a@ == b@),
{
    if a.len() != b.len() {
        return false;
    }
    let mut i: usize = 0;
    while i < a.len()
        invariant
            a@.len() == b@.len(),
            i <= a@.len(),
            forall|j: int| 0 <= j < i ==> a@[j] == b@[j],
        decreases a@.len() - i,
    {
        if a[i] != b[i] {
            return false;
        }
        i += 1;
    }
    assert(a@ =~= b@);
    true
}

/// Tells which command a name stands for.
pub fn classify_command(name: &[u8]) -> (kind: Command)
    ensures
        kind == command_kind(name@),
{
    if bytes_equal(name, "connect".as_bytes()) {
        Command::Connect
    } else if bytes_equal(name, "createStream".as_bytes()) {
        Command::CreateStream
    } else if bytes_equal(name, "publish".as_bytes()) {
        Command::Publish
    } else if bytes_equal(name, "releaseStream".as_bytes()) || bytes_equal(
        name,
        "FCPublish".as_bytes(),
    ) || bytes_equal(name, "deleteStream".as_bytes()) || bytes_equal(
        name,
        "FCUnpublish".as_bytes(),
    ) {
        Command::Acknowledged
    } else {
        Command::Ignored
    }
}

/// Appending piece after piece is appending the pieces joined.
proof fn lemma_join4(w: Seq<u8>, a: Seq<u8>, b: Seq<u8>, c: Seq<u8>, d: Seq<u8>)
    ensures
        w + a + b + c + d == w + (a + b + c + d),
        w + a + b == w + (a + b),
{
}

/// Appends the burst that answers `connect`.
pub fn send_connect_reply(w: &mut Vec<u8>, tx_id: u64)
    ensures
        final(w)@ == old(w)@ + connect_reply(tx_id),
{
    let ack = be_bytes(WINDOW_ACK_SIZE);
    send_proto(w, 5, ack.as_slice());
    let mut bw = be_bytes(WINDOW_ACK_SIZE);
    bw.push(2);
    send_proto(w, 6, bw.as_slice());
    let cs = be_bytes(OUT_CHUNK_SIZE as u32);
    send_proto(w, 1, cs.as_slice());
    send_connect_result(w, tx_id);
}

/// Appends what answers `publish`.
pub fn send_publish_reply(w: &mut Vec<u8>)
    ensures
        final(w)@ == old(w)@ + publish_reply(),
{
    let mut sb: Vec<u8> = Vec::new();
    sb.push(0);
    sb.push(0);
    sb.push(0);
    sb.push(0);
    sb.push(0);
    sb.push(1);
    send_proto(w, 4, sb.as_slice());
    send_on_status(w);
}

/// Appends the answer to a command of the given kind.
pub fn send_reply(w: &mut Vec<u8>, kind: Command, tx_id: u64)
    ensures
        final(w)@ == old(w)@ + reply_to(kind, tx_id),
{
    match kind {
        Command::Connect => {
            send_connect_reply(w, tx_id);
        },
        Command::CreateStream => {
            send_create_stream_result(w, tx_id);
        },
        Command::Publish => {
            send_publish_reply(w);
        },
        Command::Acknowledged => {
            send_null_result(w, tx_id);
        },
        Command::Ignored => {
        },
    }
}

/// The four bytes of `n`, most significant first, in a vector.
pub fn be_bytes(n: u32) -> (v: Vec<u8>)
    ensures
        v@ == be32(n),
{
    let mut v: Vec<u8> = Vec::new();
    push_u32(&mut v, n);
    v
}

/// Answers the command message `data`: appends the reply to `w` and says
/// which command it was. A message that does not open with a command name
/// is ignored.
pub fn handle_command(data: &[u8], w: &mut Vec<u8>) -> (kind: Command)
    ensures
        final(w)@ == old(w)@ + command_reply(data@),
        kind == match command_header(data@) {
            Some((name, tx)) => command_kind(name),
            None => Command::Ignored,
        },
{
    match parse_cmd_header(data) {
        Some(h) => {
            let kind = classify_command(h.name.as_slice());
            send_reply(w, kind, h.transaction_id);
            kind
        },
        None => {
            Command::Ignored
        },
    }
}

} // verus!
