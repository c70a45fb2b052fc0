//! One publishing session: the handshake, and what each chunk that arrives
//! does to the session, to the broker, and to the two outgoing streams of
//! bytes (replies to the publisher, FLV chunks to the viewers).
//!
//! The session never touches a socket. It is handed the bytes that arrived
//! and hands back what is to be written and what is to be broadcast.

use crate::broker::{
    chunk_seq, lemma_append_wf, total_len, ManagerView, StreamManager, StreamStateView,
};
use crate::bytebuf::{be32, bytes_as_slice, bytes_clone, frozen};
use crate::chunk::{
    chunk_step, lemma_chunk_step_sound, ChunkDemux, ChunkOutcome, ChunkRead, DemuxView,
    MessageView, RtmpMessage, DEFAULT_CHUNK_SIZE,
};
use crate::command::{
    be_bytes, command_reply, handle_command, proto_message, send_proto, TYPE_AMF0_COMMAND,
};
use crate::egress::opening_of;
use crate::error::{ProtocolError, SessionError};
use crate::flv::{
    all_tags, flv_file_header, flv_header_bytes, flv_stream, flv_tag, flv_tag_bytes,
    is_flv_prefix, joined, keyframe_tag, lemma_chunks_join_to_flv_stream,
    lemma_framed_tag_is_whole, lemma_joined_push, whole_tag,
};
use crate::wire::{append_bytes, read_u32_be, u32_of};
use bytes::Bytes;
use vstd::prelude::*;
use vstd::slice::slice_subrange;

verus! {

/// The only RTMP version that is spoken.
pub const RTMP_VERSION: u8 = 3;

/// Size of each of the handshake blocks C1, C2, S1 and S2.
pub const HANDSHAKE_SIZE: usize = 1536;

/// Window acknowledgement size until the publisher declares another.
pub const DEFAULT_ACK_WINDOW: u32 = 2_500_000;

/// Number of tags above which the group-of-pictures buffer is trimmed.
pub const GOP_MAX: usize = 600;

/// Number of tags that a trim drops from the front.
pub const GOP_TRIM: usize = 100;

/// Message type of Set Chunk Size.
pub const TYPE_SET_CHUNK_SIZE: u8 = 1;

/// Message type of an acknowledgement.
pub const TYPE_ACKNOWLEDGEMENT: u8 = 3;

/// Message type of Window Acknowledgement Size.
pub const TYPE_WINDOW_ACK_SIZE: u8 = 5;

/// Message type of audio.
pub const TYPE_AUDIO: u8 = 8;

/// Message type of video.
pub const TYPE_VIDEO: u8 = 9;

/// Message type of an AMF3 command.
pub const TYPE_AMF3_COMMAND: u8 = 17;

/// Message type of script data, the stream's metadata.
pub const TYPE_METADATA: u8 = 18;

/// What the server answers to C0 and C1: S0, the version; S1, 1536 zero
/// bytes; S2, a copy of C1 whose bytes 4 to 7 are zero.
pub open spec fn handshake_reply(c1: Seq<u8>) -> Seq<u8> {
    seq![RTMP_VERSION] + Seq::new(HANDSHAKE_SIZE as nat, |i: int| 0u8) + c1.subrange(0, 4)
        + Seq::new(4, |i: int| 0u8) + c1.subrange(8, HANDSHAKE_SIZE as int)
}

/// Checks the version byte C0.
pub fn check_version(c0: u8) -> (r: Result<(), SessionError>)
    ensures
        c0 == RTMP_VERSION ==> r == Ok::<(), SessionError>(()),
        c0 != RTMP_VERSION ==> r == Err::<(), SessionError>(SessionError::UnsupportedVersion(c0)),
{
    if c0 != RTMP_VERSION {
        Err(SessionError::UnsupportedVersion(c0))
    } else {
        Ok(())
    }
}

/// Answers C0 and C1 with S0, S1 and S2; a version other than 3 is refused.
pub fn handshake(c0: u8, c1: &[u8]) -> (r: Result<Vec<u8>, SessionError>)
    requires
        c1@.len() == HANDSHAKE_SIZE,
    ensures
        match r {
            Ok(reply) => c0 == RTMP_VERSION && reply@ == handshake_reply(c1@),
            Err(e) => c0 != RTMP_VERSION && e == SessionError::UnsupportedVersion(c0),
        },
{
    if c0 != RTMP_VERSION {
        return Err(SessionError::UnsupportedVersion(c0));
    }
    let mut out: Vec<u8> = Vec::with_capacity(1 + 2 * HANDSHAKE_SIZE);
    out.push(RTMP_VERSION);
    let mut i: usize = 0;
    while i < HANDSHAKE_SIZE
        invariant
            i <= HANDSHAKE_SIZE,
            out@.len() == 1 + i,
            out@[0] == RTMP_VERSION,
            forall|j: int| 1 <= j < 1 + i ==> out@[j] == 0u8,
        decreases HANDSHAKE_SIZE - i,
    {
        out.push(0);
        i += 1;
    }
    append_bytes(&mut out, slice_subrange(c1, 0, 4));
    out.push(0);
    out.push(0);
    out.push(0);
    out.push(0);
    append_bytes(&mut out, slice_subrange(c1, 8, HANDSHAKE_SIZE));
    Ok(out)
}

/// Whether a message is an H.264 video keyframe: type 9 with a first
/// payload byte whose high four bits are 1.
pub open spec fn is_keyframe(msg_type: u8, payload: Seq<u8>) -> bool {
    msg_type == TYPE_VIDEO && payload.len() > 0 && payload[0] / 16 == 1
}

/// The session as a value.
pub ghost struct SessionView {
    pub demux: DemuxView,
    /// Bytes taken from the publisher, modulo 2^64.
    pub total_recv: u64,
    pub ack_window: u32,
    /// The byte count that was last acknowledged.
    pub last_ack: u64,
    /// Whether the FLV file header has been emitted.
    pub flv_started: bool,
    /// Whether the broker's init prefix was seen frozen, after which tags
    /// are no longer offered to it.
    pub headers_done: bool,
    /// The tags since the last keyframe, trimmed from the front when there
    /// are too many.
    pub gop: Seq<Seq<u8>>,
    pub got_keyframe: bool,
}

/// What one step of the session amounts to.
pub ghost struct Outcome {
    pub session: SessionView,
    pub manager: ManagerView,
    /// Bytes to write to the publisher.
    pub reply: Seq<u8>,
    /// Chunks to hand to every viewer, in order.
    pub broadcast: Seq<Seq<u8>>,
}

/// The group-of-pictures buffer after a tag: a keyframe empties it first;
/// once a keyframe was seen every tag joins it; above 600 tags the oldest
/// 100 are dropped.
pub open spec fn gop_after(
    gop: Seq<Seq<u8>>,
    got_keyframe: bool,
    keyframe: bool,
    tag: Seq<u8>,
) -> Seq<Seq<u8>> {
    if keyframe || got_keyframe {
        let grown = (if keyframe {
            Seq::empty()
        } else {
            gop
        }).push(tag);
        if grown.len() > GOP_MAX {
            grown.skip(GOP_TRIM as int)
        } else {
            grown
        }
    } else {
        gop
    }
}

/// What an audio, video or metadata message does.
///
/// The payload is framed as an FLV tag of the message's type and timestamp.
/// Before the first tag the FLV file header is offered to the broker and
/// broadcast, once. Until the broker's prefix is seen frozen the tag is
/// offered to it as well. The group-of-pictures buffer is kept, and on a
/// keyframe the broker's snapshot is replaced by it. Last, the tag is
/// broadcast.
pub open spec fn media_effects(
    s: SessionView,
    m: ManagerView,
    key: Seq<char>,
    msg_type: u8,
    timestamp: u32,
    payload: Seq<u8>,
) -> Outcome {
    let tag = flv_tag_bytes(msg_type, timestamp, payload);
    let m1 = if s.flv_started {
        m
    } else {
        m.append(key, flv_header_bytes())
    };
    let opening = if s.flv_started {
        Seq::<Seq<u8>>::empty()
    } else {
        seq![flv_header_bytes()]
    };
    let m2 = if s.headers_done {
        m1
    } else {
        m1.append(key, tag)
    };
    let done = s.headers_done || (m2.streams.contains_key(key)
        && m2.streams[key].frozen_prefix());
    let keyframe = is_keyframe(msg_type, payload);
    let gop = gop_after(s.gop, s.got_keyframe, keyframe, tag);
    let m3 = if keyframe {
        m2.with_gop(key, gop)
    } else {
        m2
    };
    Outcome {
        session: SessionView {
            flv_started: true,
            headers_done: done,
            gop,
            got_keyframe: s.got_keyframe || keyframe,
            ..s
        },
        manager: m3,
        reply: Seq::empty(),
        broadcast: opening.push(tag),
    }
}

/// What a complete message does, by its type.
///
/// * 1, Set Chunk Size, with at least four bytes: the low 31 bits of the
///   first four bytes become the peer's chunk size; zero is refused.
/// * 5, Window Acknowledgement Size, with at least four bytes: the first
///   four bytes become the window.
/// * 8, 9 and 18, audio, video and metadata: see [`media_effects`].
/// * 20, AMF0 command: the command is answered.
/// * 17, AMF3 command, with more than one byte: the first byte is skipped
///   and the rest is answered as an AMF0 command.
/// * Anything else changes nothing.
pub open spec fn message_effects(
    s: SessionView,
    m: ManagerView,
    key: Seq<char>,
    msg: MessageView,
) -> Result<Outcome, ProtocolError> {
    let p = msg.payload;
    let quiet = Outcome { session: s, manager: m, reply: Seq::empty(), broadcast: Seq::empty() };
    if msg.message_type == TYPE_SET_CHUNK_SIZE && p.len() >= 4 {
        let n = (u32_of(p[0], p[1], p[2], p[3]) % 0x8000_0000) as u32;
        if n == 0 {
            Err(ProtocolError::ZeroChunkSize)
        } else {
            Ok(
                Outcome {
                    session: SessionView { demux: DemuxView { chunk_size: n, ..s.demux }, ..s },
                    ..quiet
                },
            )
        }
    } else if msg.message_type == TYPE_WINDOW_ACK_SIZE && p.len() >= 4 {
        Ok(
            Outcome {
                session: SessionView { ack_window: u32_of(p[0], p[1], p[2], p[3]) as u32, ..s },
                ..quiet
            },
        )
    } else if msg.message_type == TYPE_AUDIO || msg.message_type == TYPE_VIDEO || msg.message_type
        == TYPE_METADATA {
        Ok(media_effects(s, m, key, msg.message_type, msg.timestamp, p))
    } else if msg.message_type == TYPE_AMF0_COMMAND {
        Ok(Outcome { reply: command_reply(p), ..quiet })
    } else if msg.message_type == TYPE_AMF3_COMMAND && p.len() > 1 {
        Ok(Outcome { reply: command_reply(p.skip(1)), ..quiet })
    } else {
        Ok(quiet)
    }
}

/// The byte count after `used` more bytes, and the acknowledgement that is
/// due then: a message of type 3 that carries the low 32 bits of the count,
/// sent when the count has moved on from the last acknowledged one by the
/// window or more.
pub open spec fn count_bytes(s: SessionView, used: int) -> (SessionView, Seq<u8>) {
    let recv = s.total_recv.wrapping_add(used as u64);
    if recv.wrapping_sub(s.last_ack) >= s.ack_window as u64 {
        (
            SessionView { total_recv: recv, last_ack: recv, ..s },
            proto_message(TYPE_ACKNOWLEDGEMENT, be32((recv as int % 0x1_0000_0000) as u32)),
        )
    } else {
        (SessionView { total_recv: recv, ..s }, Seq::empty())
    }
}

/// What handing the session some input amounts to.
pub ghost enum StepOutcome {
    /// The input does not hold a whole chunk yet; nothing happens.
    NeedMore,
    /// The session is over.
    Failed(SessionError),
    /// One chunk of `used` bytes was taken.
    Taken { used: int, outcome: Outcome },
}

/// One step: a chunk is taken from the front of the input and counted, an
/// acknowledgement is written if one is due, and where the chunk completes
/// a message the message takes effect.
#[verifier::opaque]
pub open spec fn session_step(
    s: SessionView,
    m: ManagerView,
    key: Seq<char>,
    input: Seq<u8>,
) -> StepOutcome {
    match chunk_step(s.demux, input) {
        ChunkOutcome::NeedMore => StepOutcome::NeedMore,
        ChunkOutcome::Malformed(e) => StepOutcome::Failed(SessionError::Protocol(e)),
        ChunkOutcome::Taken { used, state, message } => {
            let (counted, ack) = count_bytes(SessionView { demux: state, ..s }, used);
            match message {
                None => StepOutcome::Taken {
                    used,
                    outcome: Outcome {
                        session: counted,
                        manager: m,
                        reply: ack,
                        broadcast: Seq::empty(),
                    },
                },
                Some(msg) => match message_effects(counted, m, key, msg) {
                    Err(e) => StepOutcome::Failed(SessionError::Protocol(e)),
                    Ok(o) => StepOutcome::Taken {
                        used,
                        outcome: Outcome { reply: ack + o.reply, ..o },
                    },
                },
            }
        },
    }
}

/// Whether the session and the broker agree on the stream `key`, as they do
/// while the session is the stream's only writer. Where the stream is
/// registered:
///
/// * its init prefix is empty or opens with the FLV file header and goes on
///   with whole tags only;
/// * data has arrived exactly when the session has emitted the file header;
/// * its group of pictures holds whole tags only and, unless it is empty,
///   opens with a video keyframe and goes with a prefix that is not empty.
pub open spec fn coherent(s: SessionView, m: ManagerView, key: Seq<char>) -> bool {
    m.streams.contains_key(key) ==> {
        let st = m.streams[key];
        &&& st.wf()
        &&& is_flv_prefix(st.init_prefix)
        &&& s.flv_started == st.has_data
        &&& all_tags(st.gop)
        &&& st.gop.len() > 0 ==> keyframe_tag(st.gop[0]) && st.has_data
    }
}

/// A new session and a newly registered stream agree.
pub proof fn lemma_fresh_start_is_coherent(m: ManagerView, key: Seq<char>)
    requires
        m.streams.contains_key(key) ==> m.streams[key] == StreamStateView::fresh(),
    ensures
        coherent(initial_session(), m, key),
        initial_session().demux.wf(),
{
}

/// Whether what a step broadcasts keeps every viewer's bytes decodable: it
/// is whole tags only, preceded by the FLV file header where the session
/// had not emitted it before.
pub open spec fn broadcast_decodable(started: bool, broadcast: Seq<Seq<u8>>) -> bool {
    if started {
        all_tags(broadcast)
    } else {
        is_flv_prefix(broadcast)
    }
}

/// A media message keeps session and broker in agreement, and what it
/// broadcasts keeps every viewer's bytes decodable.
pub proof fn lemma_media_keeps_streams_decodable(
    s: SessionView,
    m: ManagerView,
    key: Seq<char>,
    msg_type: u8,
    timestamp: u32,
    payload: Seq<u8>,
)
    requires
        coherent(s, m, key),
        payload.len() <= 0xFF_FFFF,
    ensures
        coherent(
            media_effects(s, m, key, msg_type, timestamp, payload).session,
            media_effects(s, m, key, msg_type, timestamp, payload).manager,
            key,
        ),
        broadcast_decodable(
            s.flv_started,
            media_effects(s, m, key, msg_type, timestamp, payload).broadcast,
        ),
        media_effects(s, m, key, msg_type, timestamp, payload).session.flv_started,
        media_effects(s, m, key, msg_type, timestamp, payload).manager.streams.dom()
            == m.streams.dom(),
{
    let o = media_effects(s, m, key, msg_type, timestamp, payload);
    let tag = flv_tag_bytes(msg_type, timestamp, payload);
    let hdr = flv_header_bytes();
    lemma_framed_tag_is_whole(msg_type, timestamp, payload);
    let keyframe = is_keyframe(msg_type, payload);
    let gop = gop_after(s.gop, s.got_keyframe, keyframe, tag);
    if keyframe {
        assert(gop =~= seq![tag]);
    }
    if m.streams.contains_key(key) {
        let st0 = m.streams[key];
        let m1 = if s.flv_started {
            m
        } else {
            m.append(key, hdr)
        };
        let st1 = m1.streams[key];
        if !s.flv_started {
            lemma_append_wf(st0, hdr);
            assert(st0.init_prefix.len() == 0);
            assert(total_len(st0.init_prefix) == 0);
            assert(st1.init_prefix =~= seq![hdr]);
            assert(st1.init_prefix.skip(1) =~= Seq::<Seq<u8>>::empty());
        }
        assert(st1.wf() && is_flv_prefix(st1.init_prefix) && st1.has_data);
        let m2 = if s.headers_done {
            m1
        } else {
            m1.append(key, tag)
        };
        let st2 = m2.streams[key];
        if !s.headers_done {
            lemma_append_wf(st1, tag);
            if !st1.frozen_prefix() {
                assert forall|i: int| 0 <= i < st2.init_prefix.skip(1).len() implies whole_tag(
                    #[trigger] st2.init_prefix.skip(1)[i],
                ) by {
                    if i < st1.init_prefix.skip(1).len() {
                        assert(st2.init_prefix.skip(1)[i] == st1.init_prefix.skip(1)[i]);
                    }
                }
            }
        }
        assert(st2.wf() && is_flv_prefix(st2.init_prefix) && st2.has_data);
        assert(o.manager.streams.dom() =~= m.streams.dom());
    } else {
        assert(o.manager.streams.dom() =~= m.streams.dom());
    }
    if s.flv_started {
        assert(o.broadcast =~= seq![tag]);
    } else {
        assert(o.broadcast =~= seq![hdr, tag]);
        assert(o.broadcast.skip(1) =~= seq![tag]);
    }
}

/// Every step keeps session and broker in agreement. Whatever bytes the
/// publisher sends, a step that is taken leaves the demultiplexer
/// well-formed and the broker's streams as they were registered, keeps in
/// agreement what was in agreement, and broadcasts only what keeps every
/// viewer's bytes decodable.
pub proof fn lemma_step_keeps_streams_decodable(
    s: SessionView,
    m: ManagerView,
    key: Seq<char>,
    input: Seq<u8>,
)
    requires
        s.demux.wf(),
        coherent(s, m, key),
    ensures
        session_step(s, m, key, input) matches StepOutcome::Taken { used, outcome } ==> {
            &&& 1 <= used <= input.len()
            &&& outcome.session.demux.wf()
            &&& coherent(outcome.session, outcome.manager, key)
            &&& broadcast_decodable(s.flv_started, outcome.broadcast)
            &&& s.flv_started ==> outcome.session.flv_started
            &&& outcome.manager.streams.dom() == m.streams.dom()
            &&& outcome.manager.active_key == m.active_key
        },
{
    reveal(session_step);
    lemma_chunk_step_sound(s.demux, input);
    match chunk_step(s.demux, input) {
        ChunkOutcome::Taken { used, state, message } => {
            let (counted, ack) = count_bytes(SessionView { demux: state, ..s }, used);
            match message {
                Some(msg) => {
                    lemma_media_keeps_streams_decodable(
                        counted,
                        m,
                        key,
                        msg.message_type,
                        msg.timestamp,
                        msg.payload,
                    );
                },
                None => {},
            }
        },
        _ => {},
    }
}

/// What a run of steps amounts to, one step for each input handed to the
/// session, first to last: the session and the broker in the end, and all
/// that was written back and broadcast on the way. A step that needs more
/// input or fails leaves everything as it was.
pub open spec fn run_steps(
    s: SessionView,
    m: ManagerView,
    key: Seq<char>,
    inputs: Seq<Seq<u8>>,
) -> Outcome
    decreases inputs.len(),
{
    if inputs.len() == 0 {
        Outcome { session: s, manager: m, reply: Seq::empty(), broadcast: Seq::empty() }
    } else {
        let before = run_steps(s, m, key, inputs.drop_last());
        match session_step(before.session, before.manager, key, inputs.last()) {
            StepOutcome::Taken { used, outcome } => Outcome {
                session: outcome.session,
                manager: outcome.manager,
                reply: before.reply + outcome.reply,
                broadcast: before.broadcast + outcome.broadcast,
            },
            _ => before,
        }
    }
}

/// A list of whole tags after a list that is empty or an FLV prefix makes
/// an FLV prefix, as does an FLV prefix after an empty list.
proof fn lemma_prefix_grows_by_tags(chunks: Seq<Seq<u8>>, more: Seq<Seq<u8>>)
    requires
        is_flv_prefix(chunks),
        if chunks.len() > 0 {
            all_tags(more)
        } else {
            is_flv_prefix(more)
        },
    ensures
        is_flv_prefix(chunks + more),
{
    let all = chunks + more;
    if chunks.len() > 0 {
        assert forall|i: int| 0 <= i < all.skip(1).len() implies whole_tag(
            #[trigger] all.skip(1)[i],
        ) by {
            if i + 1 < chunks.len() {
                assert(all.skip(1)[i] == chunks.skip(1)[i]);
            } else {
                assert(all.skip(1)[i] == more[i + 1 - chunks.len()]);
            }
        }
    } else {
        assert(all =~= more);
    }
}

/// A run of steps keeps session and broker in agreement, and what it
/// broadcasts keeps every viewer's bytes decodable.
pub proof fn lemma_run_keeps_streams_decodable(
    s: SessionView,
    m: ManagerView,
    key: Seq<char>,
    inputs: Seq<Seq<u8>>,
)
    requires
        s.demux.wf(),
        coherent(s, m, key),
    ensures
        run_steps(s, m, key, inputs).session.demux.wf(),
        coherent(run_steps(s, m, key, inputs).session, run_steps(s, m, key, inputs).manager, key),
        broadcast_decodable(s.flv_started, run_steps(s, m, key, inputs).broadcast),
        s.flv_started ==> run_steps(s, m, key, inputs).session.flv_started,
        run_steps(s, m, key, inputs).broadcast.len() > 0 ==> run_steps(
            s,
            m,
            key,
            inputs,
        ).session.flv_started,
        !s.flv_started && run_steps(s, m, key, inputs).session.flv_started ==> run_steps(
            s,
            m,
            key,
            inputs,
        ).broadcast.len() > 0,
        run_steps(s, m, key, inputs).manager.streams.dom() == m.streams.dom(),
    decreases inputs.len(),
{
    if inputs.len() > 0 {
        lemma_run_keeps_streams_decodable(s, m, key, inputs.drop_last());
        let before = run_steps(s, m, key, inputs.drop_last());
        lemma_step_keeps_streams_decodable(before.session, before.manager, key, inputs.last());
        match session_step(before.session, before.manager, key, inputs.last()) {
            StepOutcome::Taken { used, outcome } => {
                let all = before.broadcast + outcome.broadcast;
                lemma_step_broadcasts_only_media(
                    before.session,
                    before.manager,
                    key,
                    inputs.last(),
                );
                if s.flv_started {
                    assert forall|i: int| 0 <= i < all.len() implies whole_tag(#[trigger] all[i]) by {
                        if i < before.broadcast.len() {
                            assert(all[i] == before.broadcast[i]);
                        } else {
                            assert(all[i] == outcome.broadcast[i - before.broadcast.len()]);
                        }
                    }
                } else {
                    lemma_prefix_grows_by_tags(before.broadcast, outcome.broadcast);
                }
            },
            _ => {},
        }
    }
}

/// A step emits the FLV file header only together with a broadcast, and
/// broadcasts only once the header is emitted.
proof fn lemma_step_broadcasts_only_media(
    s: SessionView,
    m: ManagerView,
    key: Seq<char>,
    input: Seq<u8>,
)
    ensures
        session_step(s, m, key, input) matches StepOutcome::Taken { used, outcome } ==> {
            &&& outcome.broadcast.len() > 0 ==> outcome.session.flv_started
            &&& !s.flv_started && outcome.session.flv_started ==> outcome.broadcast.len() > 0
        },
{
    reveal(session_step);
}

/// Whether the init prefix of `key` in `later` goes on from the one in
/// `earlier`: the earlier prefix opens the later one, chunk for chunk and
/// byte for byte, and a prefix that was frozen is as it was.
pub open spec fn prefix_goes_on(earlier: ManagerView, later: ManagerView, key: Seq<char>) -> bool {
    earlier.streams.contains_key(key) ==> {
        &&& later.streams.contains_key(key)
        &&& earlier.streams[key].init_prefix.is_prefix_of(later.streams[key].init_prefix)
        &&& joined(earlier.streams[key].init_prefix).is_prefix_of(
            joined(later.streams[key].init_prefix),
        )
        &&& earlier.streams[key].frozen_prefix() ==> later.streams[key].init_prefix
            == earlier.streams[key].init_prefix && later.streams[key].frozen_prefix()
    }
}

/// Going on is transitive, and nothing goes on from itself.
proof fn lemma_goes_on_chain(a: ManagerView, b: ManagerView, c: ManagerView, key: Seq<char>)
    ensures
        prefix_goes_on(a, a, key),
        prefix_goes_on(a, b, key) && prefix_goes_on(b, c, key) ==> prefix_goes_on(a, c, key),
{
    if a.streams.contains_key(key) {
        let pa = a.streams[key].init_prefix;
        let ja = joined(pa);
        if prefix_goes_on(a, b, key) && prefix_goes_on(b, c, key) {
            let pb = b.streams[key].init_prefix;
            let pc = c.streams[key].init_prefix;
            assert(pa =~= pc.subrange(0, pa.len() as int)) by {
                assert(pa =~= pb.subrange(0, pa.len() as int));
                assert(pb =~= pc.subrange(0, pb.len() as int));
            }
            let jb = joined(pb);
            let jc = joined(pc);
            assert(ja =~= jc.subrange(0, ja.len() as int)) by {
                assert(ja =~= jb.subrange(0, ja.len() as int));
                assert(jb =~= jc.subrange(0, jb.len() as int));
            }
        }
    }
}

/// A chunk that arrives, or a new group of pictures, makes the prefix go
/// on.
proof fn lemma_broker_ops_go_on(m: ManagerView, key: Seq<char>, chunk: Seq<u8>, gop: Seq<Seq<u8>>)
    ensures
        prefix_goes_on(m, m.append(key, chunk), key),
        prefix_goes_on(m, m.with_gop(key, gop), key),
{
    if m.streams.contains_key(key) {
        let st = m.streams[key];
        lemma_joined_push(st.init_prefix, chunk);
    }
}

/// A step makes the init prefix go on.
proof fn lemma_step_makes_prefix_go_on(
    s: SessionView,
    m: ManagerView,
    key: Seq<char>,
    input: Seq<u8>,
)
    ensures
        session_step(s, m, key, input) matches StepOutcome::Taken { used, outcome }
            ==> prefix_goes_on(m, outcome.manager, key),
{
    reveal(session_step);
    match session_step(s, m, key, input) {
        StepOutcome::Taken { used, outcome } => {
            if outcome.manager != m {
                let counted = count_bytes(
                    SessionView { demux: chunk_step(s.demux, input)->Taken_state, ..s },
                    used,
                ).0;
                let msg = chunk_step(s.demux, input)->Taken_message->Some_0;
                let tag = flv_tag_bytes(msg.message_type, msg.timestamp, msg.payload);
                let m1 = if counted.flv_started {
                    m
                } else {
                    m.append(key, flv_header_bytes())
                };
                let gop = gop_after(
                    counted.gop,
                    counted.got_keyframe,
                    is_keyframe(msg.message_type, msg.payload),
                    tag,
                );
                lemma_broker_ops_go_on(m, key, flv_header_bytes(), gop);
                lemma_broker_ops_go_on(m1, key, tag, gop);
            }
        },
        _ => {},
    }
}

/// Every later viewer's prefix goes on from every earlier viewer's. Over
/// any run of steps, the init prefix that a viewer was handed before the
/// run opens the init prefix that a viewer is handed after it, byte for
/// byte; and once the prefix is frozen, every viewer is handed the same.
pub proof fn lemma_run_makes_prefix_go_on(
    s: SessionView,
    m: ManagerView,
    key: Seq<char>,
    inputs: Seq<Seq<u8>>,
)
    ensures
        prefix_goes_on(m, run_steps(s, m, key, inputs).manager, key),
    decreases inputs.len(),
{
    if inputs.len() > 0 {
        lemma_run_makes_prefix_go_on(s, m, key, inputs.drop_last());
        let before = run_steps(s, m, key, inputs.drop_last());
        lemma_step_makes_prefix_go_on(before.session, before.manager, key, inputs.last());
        match session_step(before.session, before.manager, key, inputs.last()) {
            StepOutcome::Taken { used, outcome } => {
            },
            _ => {},
        }
    }
}

/// Every viewer is handed a decodable stream, whenever it joins. Take a
/// session and a broker that agree on a registered stream, as a new session
/// and a newly registered stream do. Let the publisher send anything at
/// all; let a viewer join at any moment and be handed the init prefix and
/// the group of pictures of that moment; let the publisher go on sending
/// anything at all. Then the chunks that the viewer is handed, the opening
/// and then every chunk broadcast after the join, open with the FLV file
/// header and go on with whole tags: once there are any, their bytes are an
/// FLV stream that can be decoded from its first byte.
pub proof fn lemma_viewer_stream_is_decodable(
    s: SessionView,
    m: ManagerView,
    key: Seq<char>,
    before: Seq<Seq<u8>>,
    after: Seq<Seq<u8>>,
)
    requires
        s.demux.wf(),
        coherent(s, m, key),
        m.streams.contains_key(key),
    ensures
        ({
            let joined_at = run_steps(s, m, key, before);
            let opening = opening_of(joined_at.manager, key);
            let tail = run_steps(joined_at.session, joined_at.manager, key, after).broadcast;
            &&& joined_at.manager.streams.contains_key(key)
            &&& is_flv_prefix(opening + tail)
            &&& (opening + tail).len() > 0 ==> flv_stream(
                joined(opening + tail),
            )
        }),
{
    let joined_at = run_steps(s, m, key, before);
    lemma_run_keeps_streams_decodable(s, m, key, before);
    assert(joined_at.manager.streams.contains_key(key)) by {
        assert(m.streams.dom().contains(key));
    }
    let st = joined_at.manager.streams[key];
    let opening = opening_of(joined_at.manager, key);
    let tail = run_steps(joined_at.session, joined_at.manager, key, after).broadcast;
    lemma_run_keeps_streams_decodable(joined_at.session, joined_at.manager, key, after);
    if st.has_data {
        lemma_prefix_grows_by_tags(st.init_prefix, st.gop);
        assert forall|i: int| 0 <= i < tail.len() implies whole_tag(#[trigger] tail[i]) by {}
        lemma_prefix_grows_by_tags(opening, tail);
    }
    if (opening + tail).len() > 0 {
        lemma_chunks_join_to_flv_stream(opening + tail);
    }
}

/// The state of one publishing session.
pub struct RtmpSession {
    demux: ChunkDemux,
    total_recv: u64,
    ack_window: u32,
    last_ack: u64,
    flv_started: bool,
    headers_done: bool,
    gop_buf: Vec<Bytes>,
    got_keyframe: bool,
}

impl View for RtmpSession {
    type V = SessionView;

    closed spec fn view(&self) -> SessionView {
        SessionView {
            demux: self.demux@,
            total_recv: self.total_recv,
            ack_window: self.ack_window,
            last_ack: self.last_ack,
            flv_started: self.flv_started,
            headers_done: self.headers_done,
            gop: chunk_seq(self.gop_buf@),
            got_keyframe: self.got_keyframe,
        }
    }
}

/// What one step produced, for the caller to carry out.
pub struct Progress {
    /// Bytes of the input that the step took.
    pub used: usize,
    /// Bytes to write to the publisher and flush, if any.
    pub reply: Vec<u8>,
    /// Chunks to send to every viewer, in order.
    pub broadcast: Vec<Bytes>,
    /// Whether the stream's first chunk arrived in this step, so that
    /// viewers waiting for data are to be woken.
    pub data_ready: bool,
}

/// One chunk that was taken, before the message that it may have completed
/// takes effect.
pub struct TakenChunk {
    /// The bytes used and the acknowledgement, if one was due.
    pub progress: Progress,
    /// The message that the chunk completed, if it completed one.
    pub message: Option<RtmpMessage>,
}

/// Whether a message changes the broker, or may: it is an audio, video or
/// metadata message and the FLV file header is yet to be emitted, or the
/// init prefix was not yet seen frozen, or the message is a keyframe.
pub open spec fn touches_broker(s: SessionView, msg: MessageView) -> bool {
    (msg.message_type == TYPE_AUDIO || msg.message_type == TYPE_VIDEO || msg.message_type
        == TYPE_METADATA) && (!s.flv_started || !s.headers_done || is_keyframe(
        msg.message_type,
        msg.payload,
    ))
}

/// Once the init prefix is frozen, the broker is needed for keyframes only.
/// A message that does not touch the broker leaves it as it is, and does to
/// the session, writes back and broadcasts the same whatever the broker
/// holds.
pub proof fn lemma_untouched_broker_is_not_needed(
    s: SessionView,
    m: ManagerView,
    other: ManagerView,
    key: Seq<char>,
    msg: MessageView,
)
    requires
        !touches_broker(s, msg),
    ensures
        match message_effects(s, m, key, msg) {
            Ok(o) => o.manager == m && message_effects(s, other, key, msg) == Ok::<
                Outcome,
                ProtocolError,
            >(Outcome { manager: other, ..o }),
            Err(e) => message_effects(s, other, key, msg) == Err::<Outcome, ProtocolError>(e),
        },
{
}

/// The session right after the handshake.
pub open spec fn initial_session() -> SessionView {
    SessionView {
        demux: DemuxView {
            chunk_size: DEFAULT_CHUNK_SIZE,
            streams: Map::empty(),
        },
        total_recv: 0,
        ack_window: DEFAULT_ACK_WINDOW,
        last_ack: 0,
        flv_started: false,
        headers_done: false,
        gop: Seq::empty(),
        got_keyframe: false,
    }
}

proof fn lemma_high_nibble(b: u8)
    by (bit_vector)
    ensures
        (b >> 4) == b / 16,
{
}

proof fn lemma_low_31(x: u32)
    by (bit_vector)
    ensures
        (x & 0x7FFF_FFFF) == x % 0x8000_0000,
{
}

proof fn lemma_low_32(x: u64)
    by (bit_vector)
    ensures
        (x as u32) == x % 0x1_0000_0000,
{
}

impl RtmpSession {
    /// A session right after the handshake.
    pub fn new() -> (s: Self)
        ensures
            s@ == initial_session(),
            s@.demux.wf(),
    {
        let s = RtmpSession {
            demux: ChunkDemux::new(),
            total_recv: 0,
            ack_window: DEFAULT_ACK_WINDOW,
            last_ack: 0,
            flv_started: false,
            headers_done: false,
            gop_buf: Vec::new(),
            got_keyframe: false,
        };
        assert(s@.gop =~= Seq::<Seq<u8>>::empty());
        s
    }

    /// Whether the broker's init prefix was seen frozen. From then on a
    /// message touches the broker only when it is a keyframe.
    pub fn headers_done(&self) -> (done: bool)
        ensures
            done == self@.headers_done,
    {
        self.headers_done
    }

    /// Number of tags in the group-of-pictures buffer.
    pub fn gop_len(&self) -> (n: usize)
        ensures
            n == self@.gop.len(),
    {
        self.gop_buf.len()
    }

    /// Bytes taken from the publisher so far, modulo 2^64.
    pub fn total_received(&self) -> (n: u64)
        ensures
            n == self@.total_recv,
    {
        self.total_recv
    }

    /// Frames one audio, video or metadata message and passes it on. The
    /// chunks to broadcast are appended to `broadcast`. Says whether the
    /// stream's first chunk arrived.
    pub fn on_media(
        &mut self,
        manager: &mut StreamManager,
        stream_id: &str,
        msg_type: u8,
        timestamp: u32,
        payload: &[u8],
        broadcast: &mut Vec<Bytes>,
    ) -> (data_ready: bool)
        requires
            old(manager).wf(),
            payload@.len() <= 0xFF_FFFF,
        ensures
            final(manager).wf(),
            final(self)@ == media_effects(
                old(self)@,
                old(manager)@,
                stream_id@,
                msg_type,
                timestamp,
                payload@,
            ).session,
            final(manager)@ == media_effects(
                old(self)@,
                old(manager)@,
                stream_id@,
                msg_type,
                timestamp,
                payload@,
            ).manager,
            chunk_seq(final(broadcast)@) == chunk_seq(old(broadcast)@) + media_effects(
                old(self)@,
                old(manager)@,
                stream_id@,
                msg_type,
                timestamp,
                payload@,
            ).broadcast,
            data_ready == (!old(manager)@.stream(stream_id@).has_data && final(manager)@.stream(
                stream_id@,
            ).has_data),
    {
        let mut data_ready = false;
        if !self.flv_started {
            let hdr = flv_file_header();
            data_ready = manager.append_data(stream_id, &hdr);
            broadcast.push(hdr);
            self.flv_started = true;
        }
        let tag = flv_tag(msg_type, timestamp, payload);
        if !self.headers_done {
            let first = manager.append_data(stream_id, &tag);
            data_ready = data_ready || first;
            if manager.is_header_full(stream_id) {
                self.headers_done = true;
            }
        }
        let keyframe = if msg_type == TYPE_VIDEO && payload.len() > 0 {
            proof {
                lemma_high_nibble(payload@[0]);
            }
            (payload[0] >> 4) == 1
        } else {
            false
        };
        let ghost g0 = chunk_seq(self.gop_buf@);
        if keyframe {
            self.gop_buf.clear();
            self.got_keyframe = true;
        }
        if self.got_keyframe {
            self.gop_buf.push(bytes_clone(&tag));
            if self.gop_buf.len() > GOP_MAX {
                let kept = self.gop_buf.split_off(GOP_TRIM);
                self.gop_buf = kept;
            }
        }
        assert(chunk_seq(self.gop_buf@) =~= gop_after(
            g0,
            old(self)@.got_keyframe,
            keyframe,
            frozen(tag),
        ));
        if keyframe {
            manager.update_gop(stream_id, &self.gop_buf);
        }
        broadcast.push(tag);
        data_ready
    }

    /// Lets one complete message take effect. Replies are appended to
    /// `progress.reply`, chunks for the viewers to `progress.broadcast`.
    pub fn on_message(
        &mut self,
        manager: &mut StreamManager,
        stream_id: &str,
        msg: &RtmpMessage,
        progress: &mut Progress,
    ) -> (r: Result<(), ProtocolError>)
        requires
            old(manager).wf(),
            old(self)@.demux.wf(),
            msg@.payload.len() <= 0xFF_FFFF,
        ensures
            final(manager).wf(),
            final(self)@.demux.wf(),
            final(progress).used == old(progress).used,
            match message_effects(old(self)@, old(manager)@, stream_id@, msg@) {
                Ok(o) => {
                    &&& r is Ok
                    &&& final(self)@ == o.session
                    &&& final(manager)@ == o.manager
                    &&& final(progress).reply@ == old(progress).reply@ + o.reply
                    &&& chunk_seq(final(progress).broadcast@) == chunk_seq(old(progress).broadcast@)
                        + o.broadcast
                    &&& final(progress).data_ready == (old(progress).data_ready || (!old(
                        manager,
                    )@.stream(stream_id@).has_data && o.manager.stream(stream_id@).has_data))
                },
                Err(e) => r == Err::<(), ProtocolError>(e),
            },
    {
        let data = bytes_as_slice(&msg.payload);
        let t = msg.message_type;
        if t == TYPE_SET_CHUNK_SIZE && data.len() >= 4 {
            let raw = read_u32_be(data);
            proof {
                lemma_low_31(raw);
            }
            let n = raw & 0x7FFF_FFFF;
            let r = self.demux.set_chunk_size(n);
            r
        } else if t == TYPE_WINDOW_ACK_SIZE && data.len() >= 4 {
            self.ack_window = read_u32_be(data);
            Ok(())
        } else if t == TYPE_AUDIO || t == TYPE_VIDEO || t == TYPE_METADATA {
            let ready = self.on_media(
                manager,
                stream_id,
                t,
                msg.timestamp,
                data,
                &mut progress.broadcast,
            );
            progress.data_ready = progress.data_ready || ready;
            Ok(())
        } else if t == TYPE_AMF0_COMMAND {
            let _ = handle_command(data, &mut progress.reply);
            Ok(())
        } else if t == TYPE_AMF3_COMMAND && data.len() > 1 {
            let _ = handle_command(slice_subrange(data, 1, data.len()), &mut progress.reply);
            Ok(())
        } else {
            Ok(())
        }
    }

    /// Counts `used` bytes and, when the window is reached, appends the
    /// acknowledgement to `reply`.
    fn count(&mut self, used: usize, reply: &mut Vec<u8>)
        ensures
            final(self)@ == count_bytes(old(self)@, used as int).0,
            final(reply)@ == old(reply)@ + count_bytes(old(self)@, used as int).1,
    {
        self.total_recv = self.total_recv.wrapping_add(used as u64);
        if self.total_recv.wrapping_sub(self.last_ack) >= self.ack_window as u64 {
            self.last_ack = self.total_recv;
            proof {
                lemma_low_32(self.total_recv);
            }
            let count = be_bytes(self.total_recv as u32);
            send_proto(reply, TYPE_ACKNOWLEDGEMENT, count.as_slice());
        }
    }

    /// Takes one chunk from the front of `input`, if a whole chunk is there:
    /// the chunk is counted, an acknowledgement that is due is put into
    /// the reply, and a message that the chunk completed is handed out for
    /// [`RtmpSession::on_message`]. The broker is not involved.
    pub fn take_chunk(&mut self, input: &[u8]) -> (r: Result<Option<TakenChunk>, ProtocolError>)
        requires
            old(self)@.demux.wf(),
        ensures
            final(self)@.demux.wf(),
            match chunk_step(old(self)@.demux, input@) {
                ChunkOutcome::NeedMore => r matches Ok(None) && final(self)@ == old(self)@,
                ChunkOutcome::Malformed(e) => r matches Err(f) && f == e,
                ChunkOutcome::Taken { used, state, message } => {
                    let counted = count_bytes(
                        SessionView { demux: state, ..old(self)@ },
                        used,
                    );
                    &&& r matches Ok(Some(t))
                    &&& final(self)@ == counted.0
                    &&& r matches Ok(Some(t)) ==> {
                        &&& t.progress.used == used
                        &&& 1 <= used <= input@.len()
                        &&& t.progress.reply@ == counted.1
                        &&& t.progress.broadcast@.len() == 0
                        &&& !t.progress.data_ready
                        &&& match t.message {
                            Some(m) => message == Some(m@) && m@.payload.len() <= 0xFF_FFFF,
                            None => message is None,
                        }
                    }
                },
            },
    {
        let read = match self.demux.read_chunk(input) {
            Err(e) => {
                return Err(e);
            },
            Ok(read) => read,
        };
        match read {
            ChunkRead::NeedMore => Ok(None),
            ChunkRead::Taken { used, message } => {
                let mut progress = Progress {
                    used,
                    reply: Vec::new(),
                    broadcast: Vec::new(),
                    data_ready: false,
                };
                self.count(used, &mut progress.reply);
                Ok(Some(TakenChunk { progress, message }))
            },
        }
    }

    /// Whether the message cannot take effect without the broker: it is a
    /// media message, and the FLV file header is yet to be emitted, or the
    /// init prefix was not yet seen frozen, or the message is a keyframe.
    /// Any other message leaves the broker alone, so that it may be
    /// handled without holding the broker's lock.
    pub fn needs_broker(&self, msg: &RtmpMessage) -> (needed: bool)
        ensures
            needed == touches_broker(self@, msg@),
    {
        let t = msg.message_type;
        if t == TYPE_AUDIO || t == TYPE_VIDEO || t == TYPE_METADATA {
            if !self.flv_started || !self.headers_done {
                true
            } else {
                let data = bytes_as_slice(&msg.payload);
                if t == TYPE_VIDEO && data.len() > 0 {
                    proof {
                        lemma_high_nibble(data@[0]);
                    }
                    (data[0] >> 4) == 1
                } else {
                    false
                }
            }
        } else {
            false
        }
    }

    /// Takes one chunk from the front of `input`, if a whole chunk is there,
    /// and carries out what it calls for. `Ok(None)` asks for more input.
    pub fn advance(&mut self, manager: &mut StreamManager, stream_id: &str, input: &[u8]) -> (r:
        Result<Option<Progress>, SessionError>)
        requires
            old(manager).wf(),
            old(self)@.demux.wf(),
        ensures
            final(manager).wf(),
            final(self)@.demux.wf(),
            match session_step(old(self)@, old(manager)@, stream_id@, input@) {
                StepOutcome::NeedMore => r matches Ok(None) && final(self)@ == old(self)@
                    && final(manager)@ == old(manager)@,
                StepOutcome::Failed(e) => r matches Err(f) && f == e,
                StepOutcome::Taken { used, outcome } => {
                    &&& r matches Ok(Some(p))
                    &&& final(self)@ == outcome.session
                    &&& final(manager)@ == outcome.manager
                    &&& r matches Ok(Some(p)) ==> {
                        &&& p.used == used
                        &&& 1 <= p.used <= input@.len()
                        &&& p.reply@ == outcome.reply
                        &&& chunk_seq(p.broadcast@) == outcome.broadcast
                        &&& p.data_ready == (!old(manager)@.stream(stream_id@).has_data
                            && outcome.manager.stream(stream_id@).has_data)
                    }
                },
            },
    {
        reveal(session_step);
        let taken = match self.take_chunk(input) {
            Err(e) => {
                return Err(SessionError::Protocol(e));
            },
            Ok(None) => {
                return Ok(None);
            },
            Ok(Some(taken)) => taken,
        };
        let mut progress = taken.progress;
        match taken.message {
            None => Ok(Some(progress)),
            Some(msg) => {
                match self.on_message(manager, stream_id, &msg, &mut progress) {
                    Err(e) => Err(SessionError::Protocol(e)),
                    Ok(()) => Ok(Some(progress)),
                }
            },
        }
    }
}

} // verus!
