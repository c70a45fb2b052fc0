//! HTTP-FLV egress: what a viewer is answered, what opens the response
//! body, and what each event on the fanout channel adds to it.

use crate::broker::{chunk_seq, ManagerView, StreamManager};
use crate::bytebuf::{bytes_clone, frozen};
use crate::flv::{
    all_tags, flv_stream, is_flv_prefix, joined, lemma_chunks_join_to_flv_stream,
    lemma_joined_concat, whole_tag,
};
use bytes::Bytes;
use vstd::prelude::*;

verus! {

/// Seconds that a viewer waits for the stream's first data.
pub const WAIT_FOR_DATA_SECONDS: u64 = 30;

/// HTTP status of a streaming response.
pub const STATUS_OK: u16 = 200;

/// HTTP status of a refusal.
pub const STATUS_UNAVAILABLE: u16 = 503;

/// Why a viewer is turned away.
#[derive(Debug, Clone, Copy, PartialEq, Eq, Structural)]
pub enum EgressError {
    /// No data arrived within the wait.
    NotReady,
    /// The stream's state was gone when the viewer came to subscribe.
    BrokerStreamMissing,
}

impl EgressError {
    /// The short text that is the body of the refusal.
    pub fn body(&self) -> (text: &'static str)
        ensures
            text@ == match *self {
                EgressError::NotReady => "Stream not ready"@,
                EgressError::BrokerStreamMissing => "Stream ended"@,
            },
    {
        match self {
            EgressError::NotReady => "Stream not ready",
            EgressError::BrokerStreamMissing => "Stream ended",
        }
    }

    /// The HTTP status of the refusal.
    pub fn status(&self) -> (code: u16)
        ensures
            code == STATUS_UNAVAILABLE,
    {
        STATUS_UNAVAILABLE
    }
}

/// One header of the streaming response.
pub struct Header {
    pub name: &'static str,
    pub value: &'static str,
}

/// The headers of the streaming response, in order: the FLV content type,
/// no caching, chunked transfer, and any origin allowed.
pub fn response_headers() -> (headers: Vec<Header>)
    ensures
        headers@.len() == 4,
        headers@[0].name@ == "Content-Type"@ && headers@[0].value@ == "video/x-flv"@,
        headers@[1].name@ == "Cache-Control"@ && headers@[1].value@ == "no-cache, no-store"@,
        headers@[2].name@ == "Transfer-Encoding"@ && headers@[2].value@ == "chunked"@,
        headers@[3].name@ == "Access-Control-Allow-Origin"@ && headers@[3].value@ == "*"@,
{
    let mut headers: Vec<Header> = Vec::with_capacity(4);
    headers.push(Header { name: "Content-Type", value: "video/x-flv" });
    headers.push(Header { name: "Cache-Control", value: "no-cache, no-store" });
    headers.push(Header { name: "Transfer-Encoding", value: "chunked" });
    headers.push(Header { name: "Access-Control-Allow-Origin", value: "*" });
    headers
}

/// What opens the body of a viewer that joins the stream `key`: the init
/// prefix and then the group of pictures, as they stand.
pub open spec fn opening_of(m: ManagerView, key: Seq<char>) -> Seq<Seq<u8>> {
    m.streams[key].init_prefix + m.streams[key].gop
}

/// Answers a viewer of the stream `stream_id`. `ready` says how the wait
/// for data ended. A viewer whose wait ran out is turned away as not ready;
/// one whose stream is gone, as ended; any other is handed the chunks that
/// open its body, after which the live tail follows.
///
/// The caller subscribes to the fanout channel in the critical section in
/// which it makes this call, so that the live tail starts where the opening
/// ends.
pub fn stream_flv(manager: &StreamManager, stream_id: &str, ready: bool) -> (r: Result<
    Vec<Bytes>,
    EgressError,
>)
    requires
        manager.wf(),
    ensures
        match r {
            Ok(opening) => ready && manager@.streams.contains_key(stream_id@) && chunk_seq(
                opening@,
            ) == opening_of(manager@, stream_id@),
            Err(e) => e == if !ready {
                EgressError::NotReady
            } else {
                EgressError::BrokerStreamMissing
            } && (!ready || !manager@.streams.contains_key(stream_id@)),
        },
{
    if !ready {
        return Err(EgressError::NotReady);
    }
    match manager.subscribe_with_headers(stream_id) {
        None => Err(EgressError::BrokerStreamMissing),
        Some(snap) => {
            let mut opening = snap.prefix;
            let gop = snap.gop;
            let ghost p = opening@;
            let mut i: usize = 0;
            while i < gop.len()
                invariant
                    i <= gop@.len(),
                    chunk_seq(opening@) == chunk_seq(p) + chunk_seq(gop@).take(i as int),
                decreases gop@.len() - i,
            {
                let ghost before = opening@;
                opening.push(bytes_clone(&gop[i]));
                assert(chunk_seq(opening@) =~= chunk_seq(before).push(frozen(gop@[i as int])));
                i += 1;
            }
            Ok(opening)
        },
    }
}

/// What the fanout channel hands a viewer.
pub enum TailEvent {
    /// The next chunk.
    Chunk(Bytes),
    /// The viewer fell behind and this many chunks were dropped for it.
    Lagged(u64),
    /// The stream ended.
    Closed,
}

/// What to do with the response body.
pub enum TailAction {
    /// Write the chunk and go on.
    Emit(Bytes),
    /// Write nothing and go on.
    Skip,
    /// End the body.
    End,
}

/// An event of the fanout channel as a value.
pub ghost enum TailEventView {
    Chunk(Seq<u8>),
    Lagged,
    Closed,
}

impl View for TailEvent {
    type V = TailEventView;

    open spec fn view(&self) -> TailEventView {
        match *self {
            TailEvent::Chunk(b) => TailEventView::Chunk(frozen(b)),
            TailEvent::Lagged(_) => TailEventView::Lagged,
            TailEvent::Closed => TailEventView::Closed,
        }
    }
}

/// Decides what an event adds to the body: a chunk is written, a lag is
/// passed over, and the end of the stream ends the body.
pub fn on_tail_event(event: TailEvent) -> (action: TailAction)
    ensures
        match event@ {
            TailEventView::Chunk(c) => action matches TailAction::Emit(b) && frozen(b) == c,
            TailEventView::Lagged => action is Skip,
            TailEventView::Closed => action is End,
        },
{
    match event {
        TailEvent::Chunk(b) => TailAction::Emit(b),
        TailEvent::Lagged(_) => TailAction::Skip,
        TailEvent::Closed => TailAction::End,
    }
}

/// The chunks that a run of events adds to the body: every chunk up to the
/// end of the stream, lags passed over.
pub open spec fn live_tail(events: Seq<TailEventView>) -> Seq<Seq<u8>>
    decreases events.len(),
{
    if events.len() == 0 {
        Seq::empty()
    } else {
        match events[0] {
            TailEventView::Chunk(c) => seq![c] + live_tail(events.skip(1)),
            TailEventView::Lagged => live_tail(events.skip(1)),
            TailEventView::Closed => Seq::empty(),
        }
    }
}

/// The bytes of a response body: the opening and then the live tail.
pub open spec fn body_bytes(opening: Seq<Seq<u8>>, events: Seq<TailEventView>) -> Seq<u8> {
    joined(opening) + joined(live_tail(events))
}

/// The live tail of whole tags is whole tags.
pub proof fn lemma_live_tail_tags(events: Seq<TailEventView>)
    requires
        forall|i: int|
            0 <= i < events.len() ==> (#[trigger] events[i] matches TailEventView::Chunk(c)
                ==> whole_tag(c)),
    ensures
        all_tags(live_tail(events)),
    decreases events.len(),
{
    if events.len() > 0 {
        let rest = events.skip(1);
        assert forall|i: int| 0 <= i < rest.len() implies (#[trigger] rest[i] matches TailEventView::Chunk(
            c,
        ) ==> whole_tag(c)) by {
            assert(rest[i] == events[i + 1]);
        }
        lemma_live_tail_tags(rest);
        match events[0] {
            TailEventView::Chunk(c) => {
                let tail = live_tail(events);
                assert forall|i: int| 0 <= i < tail.len() implies whole_tag(
                    #[trigger] tail[i],
                ) by {
                    if i > 0 {
                        assert(tail[i] == live_tail(rest)[i - 1]);
                    }
                }
            },
            _ => {},
        }
    }
}

/// A viewer's body is the init prefix, then the group of pictures, then the
/// live tail, and it is an FLV stream that can be decoded from its first
/// byte: the prefix opens with the file header and goes on with whole tags,
/// and the group of pictures and every chunk of the live tail are whole
/// tags.
pub proof fn lemma_body_is_flv_stream(
    prefix: Seq<Seq<u8>>,
    gop: Seq<Seq<u8>>,
    events: Seq<TailEventView>,
)
    requires
        prefix.len() > 0,
        is_flv_prefix(prefix),
        all_tags(gop),
        forall|i: int|
            0 <= i < events.len() ==> (#[trigger] events[i] matches TailEventView::Chunk(c)
                ==> whole_tag(c)),
    ensures
        body_bytes(prefix + gop, events) == joined(prefix) + joined(gop) + joined(
            live_tail(events),
        ),
        flv_stream(body_bytes(prefix + gop, events)),
{
    let tail = live_tail(events);
    lemma_live_tail_tags(events);
    let all = prefix + gop + tail;
    lemma_joined_concat(prefix, gop);
    lemma_joined_concat(prefix + gop, tail);
    assert forall|i: int| 0 <= i < all.skip(1).len() implies whole_tag(
        #[trigger] all.skip(1)[i],
    ) by {
        let j = i + 1;
        if j < prefix.len() {
            assert(all.skip(1)[i] == prefix.skip(1)[i]);
        } else if j < prefix.len() + gop.len() {
            assert(all.skip(1)[i] == gop[j - prefix.len()]);
        } else {
            assert(all.skip(1)[i] == tail[j - prefix.len() - gop.len()]);
        }
    }
    lemma_chunks_join_to_flv_stream(all);
}

} // verus!
