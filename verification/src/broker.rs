//! The stream broker: for each stream id, the init prefix that a late viewer
//! needs, the rolling group of pictures, and whether data has arrived; and,
//! for the process, the active stream key and the RTMP port.
//!
//! The broker is plain data. Whoever shares it between tasks puts it behind
//! one lock and performs each operation, together with the matching send or
//! subscribe on the fanout channel, inside one critical section.

use crate::bytebuf::{bytes_clone, bytes_len, frozen};
use crate::command::bytes_equal;
use crate::flv::{joined, lemma_joined_push};
use bytes::Bytes;
use vstd::prelude::*;
use vstd::string::StringSliceAdditionalSpecFns;
use vstd::utf8::encode_utf8_decode_utf8;

verus! {

/// Backlog of the fanout channel, in chunks.
pub const BROADCAST_CAPACITY: usize = 2048;

/// Size in bytes at which the init prefix stops growing.
pub const HEADER_BUFFER_MAX: usize = 131072;

/// What a list of chunks holds, chunk by chunk.
pub open spec fn chunk_seq(v: Seq<Bytes>) -> Seq<Seq<u8>> {
    Seq::new(v.len(), |i: int| frozen(v[i]))
}

/// The number of bytes in a list of chunks.
pub open spec fn total_len(chunks: Seq<Seq<u8>>) -> nat
    decreases chunks.len(),
{
    if chunks.len() == 0 {
        0
    } else {
        total_len(chunks.drop_last()) + chunks.last().len()
    }
}

/// The state of one stream as a value.
pub ghost struct StreamStateView {
    /// The FLV header and the tags that arrived before the prefix froze.
    pub init_prefix: Seq<Seq<u8>>,
    /// Bytes in the prefix, held at the largest `usize` if they exceed it.
    pub prefix_size: usize,
    /// The last snapshot of the group of pictures.
    pub gop: Seq<Seq<u8>>,
    /// Whether any chunk has arrived.
    pub has_data: bool,
}

impl StreamStateView {
    /// A stream on which nothing has arrived.
    pub open spec fn fresh() -> Self {
        StreamStateView {
            init_prefix: Seq::empty(),
            prefix_size: 0,
            gop: Seq::empty(),
            has_data: false,
        }
    }

    /// The size is that of the prefix, and data has arrived exactly when the
    /// prefix holds a chunk.
    pub open spec fn wf(self) -> bool {
        &&& self.prefix_size == if total_len(self.init_prefix) > usize::MAX {
            usize::MAX as int
        } else {
            total_len(self.init_prefix) as int
        }
        &&& self.has_data == (self.init_prefix.len() > 0)
    }

    /// Whether the prefix has reached its cap and is frozen.
    pub open spec fn frozen_prefix(self) -> bool {
        self.prefix_size >= HEADER_BUFFER_MAX
    }

    /// The state after one more chunk arrived: the chunk joins the prefix
    /// unless the prefix is frozen, and data has arrived.
    pub open spec fn append(self, chunk: Seq<u8>) -> Self {
        if self.frozen_prefix() {
            StreamStateView { has_data: true, ..self }
        } else {
            StreamStateView {
                init_prefix: self.init_prefix.push(chunk),
                prefix_size: if self.prefix_size + chunk.len() > usize::MAX {
                    usize::MAX
                } else {
                    (self.prefix_size + chunk.len()) as usize
                },
                has_data: true,
                ..self
            }
        }
    }

    /// The state after the group of pictures was replaced.
    pub open spec fn with_gop(self, snapshot: Seq<Seq<u8>>) -> Self {
        StreamStateView { gop: snapshot, ..self }
    }
}

/// A stream between its registration and its removal changes in two ways.
pub ghost enum StreamOp {
    /// A chunk arrives.
    Append(Seq<u8>),
    /// The group of pictures is replaced.
    UpdateGop(Seq<Seq<u8>>),
}

/// The state of a stream after one change.
pub open spec fn apply_op(s: StreamStateView, op: StreamOp) -> StreamStateView {
    match op {
        StreamOp::Append(chunk) => s.append(chunk),
        StreamOp::UpdateGop(snapshot) => s.with_gop(snapshot),
    }
}

/// The state of a stream after a run of changes, first to last.
pub open spec fn apply_ops(s: StreamStateView, ops: Seq<StreamOp>) -> StreamStateView
    decreases ops.len(),
{
    if ops.len() == 0 {
        s
    } else {
        apply_op(apply_ops(s, ops.drop_last()), ops.last())
    }
}

/// The init prefix only grows, and a frozen prefix stays as it is. Whatever
/// happens to a stream after a viewer joined, the prefix that the viewer was
/// handed opens the prefix that any later viewer is handed, chunk for chunk
/// and byte for byte; once the prefix has reached its cap, every later
/// viewer is handed the same prefix.
pub proof fn lemma_prefix_only_grows(s: StreamStateView, ops: Seq<StreamOp>)
    ensures
        s.init_prefix.is_prefix_of(apply_ops(s, ops).init_prefix),
        joined(s.init_prefix).is_prefix_of(joined(apply_ops(s, ops).init_prefix)),
        s.frozen_prefix() ==> apply_ops(s, ops).init_prefix == s.init_prefix && apply_ops(
            s,
            ops,
        ).frozen_prefix(),
        s.wf() ==> apply_ops(s, ops).wf(),
        s.has_data ==> apply_ops(s, ops).has_data,
    decreases ops.len(),
{
    if ops.len() > 0 {
        lemma_prefix_only_grows(s, ops.drop_last());
        let mid = apply_ops(s, ops.drop_last());
        match ops.last() {
            StreamOp::Append(chunk) => {
                lemma_joined_push(mid.init_prefix, chunk);
                if s.wf() {
                    lemma_append_wf(mid, chunk);
                }
            },
            StreamOp::UpdateGop(snapshot) => {},
        }
    }
}

/// Adding a chunk to a list adds its length to the total.
pub proof fn lemma_total_len_push(chunks: Seq<Seq<u8>>, chunk: Seq<u8>)
    ensures
        total_len(chunks.push(chunk)) == total_len(chunks) + chunk.len(),
{
    assert(chunks.push(chunk).drop_last() =~= chunks);
}

/// Appending keeps a well-formed state well-formed.
pub proof fn lemma_append_wf(s: StreamStateView, chunk: Seq<u8>)
    requires
        s.wf(),
    ensures
        s.append(chunk).wf(),
{
    lemma_total_len_push(s.init_prefix, chunk);
}

/// The state of one stream.
pub struct StreamState {
    init_prefix: Vec<Bytes>,
    prefix_size: usize,
    gop: Vec<Bytes>,
    has_data: bool,
}

impl View for StreamState {
    type V = StreamStateView;

    closed spec fn view(&self) -> StreamStateView {
        StreamStateView {
            init_prefix: chunk_seq(self.init_prefix@),
            prefix_size: self.prefix_size,
            gop: chunk_seq(self.gop@),
            has_data: self.has_data,
        }
    }
}

/// A copy of a list of chunks that shares their storage.
pub fn clone_chunks(v: &Vec<Bytes>) -> (c: Vec<Bytes>)
    ensures
        chunk_seq(c@) == chunk_seq(v@),
{
    let mut c: Vec<Bytes> = Vec::with_capacity(v.len());
    let mut i: usize = 0;
    while i < v.len()
        invariant
            i <= v@.len(),
            c@.len() == i,
            forall|j: int| 0 <= j < i ==> frozen(c@[j]) == frozen(v@[j]),
        decreases v@.len() - i,
    {
        c.push(bytes_clone(&v[i]));
        i += 1;
    }
    c
}

/// What a viewer is handed when it joins: the init prefix and the group of
/// pictures as they stood at that moment.
pub struct Snapshot {
    pub prefix: Vec<Bytes>,
    pub gop: Vec<Bytes>,
}

impl StreamState {
    /// The state of a stream on which nothing has arrived.
    pub fn new() -> (s: Self)
        ensures
            s@ == StreamStateView::fresh(),
            s@.wf(),
    {
        let s = StreamState {
            init_prefix: Vec::new(),
            prefix_size: 0,
            gop: Vec::new(),
            has_data: false,
        };
        assert(s@.init_prefix =~= Seq::<Seq<u8>>::empty());
        s
    }

    /// Takes in one chunk. Says whether it was the first, which is when
    /// waiting viewers are to be woken.
    pub fn append(&mut self, chunk: &Bytes) -> (first: bool)
        requires
            old(self)@.wf(),
        ensures
            final(self)@ == old(self)@.append(frozen(*chunk)),
            final(self)@.wf(),
            first == !old(self)@.has_data,
    {
        proof {
            lemma_append_wf(self@, frozen(*chunk));
        }
        let first = !self.has_data;
        self.has_data = true;
        if self.prefix_size < HEADER_BUFFER_MAX {
            let ghost before = self.init_prefix@;
            self.init_prefix.push(bytes_clone(chunk));
            self.prefix_size = self.prefix_size.saturating_add(bytes_len(chunk));
            assert(chunk_seq(self.init_prefix@) =~= chunk_seq(before).push(frozen(*chunk)));
        }
        first
    }

    /// Whether the init prefix has reached its cap.
    pub fn is_full(&self) -> (full: bool)
        ensures
            full == self@.frozen_prefix(),
    {
        self.prefix_size >= HEADER_BUFFER_MAX
    }

    /// Whether any chunk has arrived.
    pub fn has_data(&self) -> (ready: bool)
        ensures
            ready == self@.has_data,
    {
        self.has_data
    }

    /// Replaces the group of pictures.
    pub fn set_gop(&mut self, snapshot: &Vec<Bytes>)
        ensures
            final(self)@ == old(self)@.with_gop(chunk_seq(snapshot@)),
    {
        self.gop = clone_chunks(snapshot);
    }

    /// The init prefix and the group of pictures, as they stand.
    pub fn snapshot(&self) -> (s: Snapshot)
        ensures
            chunk_seq(s.prefix@) == self@.init_prefix,
            chunk_seq(s.gop@) == self@.gop,
    {
        Snapshot { prefix: clone_chunks(&self.init_prefix), gop: clone_chunks(&self.gop) }
    }
}

/// Whether two strings are the same, compared byte by byte.
pub fn str_equal(a: &str, b: &str) -> (same: bool)
    ensures
        same == (a@ == b@),
{
    proof {
        encode_utf8_decode_utf8(a@);
        encode_utf8_decode_utf8(b@);
    }
    bytes_equal(a.as_bytes(), b.as_bytes())
}

/// Where a viewer's wait for data stands.
#[derive(Debug, Clone, Copy, PartialEq, Eq, Structural)]
pub enum WaitEvent {
    /// The wait begins.
    Start,
    /// The "data ready" notifier fired.
    Notified,
    /// The time allowed ran out.
    TimedOut,
}

/// What a waiting viewer does next.
#[derive(Debug, Clone, Copy, PartialEq, Eq, Structural)]
pub enum WaitAction {
    /// Data is there: go on and subscribe.
    Ready,
    /// Await the "data ready" notifier, for no longer than the time allowed.
    Await,
    /// Give up.
    NotReady,
}

/// One row of the broker's table.
pub struct StreamEntry {
    key: String,
    state: StreamState,
}

/// Whether some row carries the key.
pub closed spec fn has_key(rows: Seq<StreamEntry>, key: Seq<char>) -> bool {
    exists|i: int| 0 <= i < rows.len() && #[trigger] rows[i].key@ == key
}

/// A row that carries the key.
pub closed spec fn row_of(rows: Seq<StreamEntry>, key: Seq<char>) -> int {
    choose|i: int| 0 <= i < rows.len() && #[trigger] rows[i].key@ == key
}

/// No key stands in two rows, and every row is well-formed.
pub closed spec fn rows_wf(rows: Seq<StreamEntry>) -> bool {
    &&& forall|i: int, j: int|
        0 <= i < j < rows.len() ==> #[trigger] rows[i].key@ != #[trigger] rows[j].key@
    &&& forall|i: int| 0 <= i < rows.len() ==> (#[trigger] rows[i]).state@.wf()
}

/// The table as a map from stream id to stream state.
pub closed spec fn table(rows: Seq<StreamEntry>) -> Map<Seq<char>, StreamStateView> {
    Map::new(|k: Seq<char>| has_key(rows, k), |k: Seq<char>| rows[row_of(rows, k)].state@)
}

/// The broker: the per-stream table, the active stream key and the port of
/// the RTMP listener.
pub struct StreamManager {
    streams: Vec<StreamEntry>,
    active_key: Option<String>,
    rtmp_port: u16,
}

/// The broker as a value.
pub ghost struct ManagerView {
    pub streams: Map<Seq<char>, StreamStateView>,
    pub active_key: Option<Seq<char>>,
    pub rtmp_port: u16,
}

impl ManagerView {
    /// Every stream state is well-formed.
    pub open spec fn wf(self) -> bool {
        forall|k: Seq<char>| #[trigger]
            self.streams.contains_key(k) ==> self.streams[k].wf()
    }

    /// The state of the stream `key`, or a fresh one where there is none.
    pub open spec fn stream(self, key: Seq<char>) -> StreamStateView {
        if self.streams.contains_key(key) {
            self.streams[key]
        } else {
            StreamStateView::fresh()
        }
    }

    /// The broker after `chunk` arrived for `key`: nothing changes where the
    /// stream is not registered.
    pub open spec fn append(self, key: Seq<char>, chunk: Seq<u8>) -> Self {
        if self.streams.contains_key(key) {
            ManagerView { streams: self.streams.insert(key, self.streams[key].append(chunk)), ..self }
        } else {
            self
        }
    }

    /// The broker after the group of pictures of `key` was replaced: nothing
    /// changes where the stream is not registered.
    pub open spec fn with_gop(self, key: Seq<char>, snapshot: Seq<Seq<u8>>) -> Self {
        if self.streams.contains_key(key) {
            ManagerView {
                streams: self.streams.insert(key, self.streams[key].with_gop(snapshot)),
                ..self
            }
        } else {
            self
        }
    }
}

impl View for StreamManager {
    type V = ManagerView;

    closed spec fn view(&self) -> ManagerView {
        ManagerView {
            streams: table(self.streams@),
            active_key: match self.active_key {
                Some(k) => Some(k@),
                None => None,
            },
            rtmp_port: self.rtmp_port,
        }
    }
}

/// A table with one row more, for a key it did not have.
proof fn lemma_table_push(rows: Seq<StreamEntry>, row: StreamEntry)
    requires
        rows_wf(rows),
        !has_key(rows, row.key@),
        row.state@.wf(),
    ensures
        rows_wf(rows.push(row)),
        table(rows.push(row)) == table(rows).insert(row.key@, row.state@),
{
    let more = rows.push(row);
    assert forall|i: int, j: int| 0 <= i < j < more.len() implies #[trigger] more[i].key@
        != #[trigger] more[j].key@ by {
        if j == rows.len() {
            assert(rows[i].key@ == more[i].key@);
        } else {
            assert(rows[i].key@ == more[i].key@ && rows[j].key@ == more[j].key@);
        }
    }
    assert forall|k: Seq<char>| has_key(more, k) <==> (k == row.key@ || has_key(rows, k)) by {
        if has_key(more, k) {
            let i = row_of(more, k);
            if i < rows.len() {
                assert(rows[i].key@ == k);
            }
        }
        if has_key(rows, k) {
            let i = row_of(rows, k);
            assert(more[i].key@ == k);
        }
        if k == row.key@ {
            assert(more[rows.len() as int].key@ == k);
        }
    }
    assert forall|k: Seq<char>| has_key(more, k) implies more[row_of(more, k)].state@ == (if k
        == row.key@ {
        row.state@
    } else {
        rows[row_of(rows, k)].state@
    }) by {
        let i = row_of(more, k);
        if k == row.key@ {
            if i < rows.len() {
                assert(rows[i].key@ == k);
            }
        } else {
            let j = row_of(rows, k);
            assert(more[j].key@ == k);
            if i != j {
                if i < j {
                    assert(more[i].key@ != more[j].key@);
                } else {
                    assert(more[j].key@ != more[i].key@);
                }
            }
        }
    }
    assert(table(more) =~= table(rows).insert(row.key@, row.state@));
}

/// A table with one row taken out.
proof fn lemma_table_remove(rows: Seq<StreamEntry>, at: int)
    requires
        rows_wf(rows),
        0 <= at < rows.len(),
    ensures
        rows_wf(rows.remove(at)),
        !has_key(rows.remove(at), rows[at].key@),
        table(rows.remove(at)) == table(rows).remove(rows[at].key@),
        table(rows).contains_key(rows[at].key@),
        table(rows)[rows[at].key@] == rows[at].state@,
{
    let less = rows.remove(at);
    let gone = rows[at].key@;
    assert forall|i: int| 0 <= i < less.len() implies #[trigger] less[i] == rows[if i < at {
        i
    } else {
        i + 1
    }] by {}
    assert forall|i: int, j: int| 0 <= i < j < less.len() implies #[trigger] less[i].key@
        != #[trigger] less[j].key@ by {
        let a = if i < at {
            i
        } else {
            i + 1
        };
        let b = if j < at {
            j
        } else {
            j + 1
        };
        assert(rows[a].key@ != rows[b].key@);
    }
    assert forall|i: int| 0 <= i < less.len() implies (#[trigger] less[i]).state@.wf() by {
        let a = if i < at {
            i
        } else {
            i + 1
        };
        assert(rows[a].state@.wf());
    }
    assert(has_key(rows, gone));
    assert(row_of(rows, gone) == at) by {
        let i = row_of(rows, gone);
        if i < at {
            assert(rows[i].key@ != rows[at].key@);
        } else if at < i {
            assert(rows[at].key@ != rows[i].key@);
        }
    }
    assert forall|k: Seq<char>| has_key(less, k) <==> (k != gone && has_key(rows, k)) by {
        if has_key(less, k) {
            let i = row_of(less, k);
            let a = if i < at {
                i
            } else {
                i + 1
            };
            assert(rows[a].key@ == k);
            if a < at {
                assert(rows[a].key@ != rows[at].key@);
            } else {
                assert(rows[at].key@ != rows[a].key@);
            }
        }
        if k != gone && has_key(rows, k) {
            let a = row_of(rows, k);
            let i = if a < at {
                a
            } else {
                a - 1
            };
            assert(less[i].key@ == k);
        }
    }
    assert forall|k: Seq<char>| has_key(less, k) implies less[row_of(less, k)].state@
        == rows[row_of(rows, k)].state@ by {
        let i = row_of(less, k);
        let a = if i < at {
            i
        } else {
            i + 1
        };
        assert(rows[a].key@ == k);
        let b = row_of(rows, k);
        if a < b {
            assert(rows[a].key@ != rows[b].key@);
        } else if b < a {
            assert(rows[b].key@ != rows[a].key@);
        }
    }
    assert(table(less) =~= table(rows).remove(gone));
}

impl StreamManager {
    /// A broker without streams and without an active key.
    pub fn new(rtmp_port: u16) -> (m: Self)
        ensures
            m.wf(),
            m@.streams == Map::<Seq<char>, StreamStateView>::empty(),
            m@.active_key is None,
            m@.rtmp_port == rtmp_port,
    {
        let m = StreamManager { streams: Vec::new(), active_key: None, rtmp_port };
        m
    }

    /// What every operation relies on and keeps: no stream id twice, every
    /// stream state well-formed.
    pub closed spec fn wf(&self) -> bool {
        rows_wf(self.streams@)
    }

    /// A well-formed broker has a well-formed value.
    pub proof fn lemma_view_wf(&self)
        requires
            self.wf(),
        ensures
            self@.wf(),
    {
        assert forall|k: Seq<char>| #[trigger] self@.streams.contains_key(k) implies self@.streams[k].wf() by {
            let i = row_of(self.streams@, k);
            assert(self.streams@[i].state@.wf());
        }
    }

    /// The row that carries `key`, if there is one.
    fn find(&self, key: &str) -> (r: Option<usize>)
        requires
            self.wf(),
        ensures
            match r {
                Some(i) => i < self.streams@.len() && self.streams@[i as int].key@ == key@,
                None => !has_key(self.streams@, key@),
            },
            r is Some <==> self@.streams.contains_key(key@),
    {
        let mut i: usize = 0;
        while i < self.streams.len()
            invariant
                i <= self.streams@.len(),
                forall|j: int| 0 <= j < i ==> (#[trigger] self.streams@[j]).key@ != key@,
            decreases self.streams@.len() - i,
        {
            if str_equal(self.streams[i].key.as_str(), key) {
                return Some(i);
            }
            i += 1;
        }
        None
    }

    /// Takes the row of `key` out of the table.
    fn take(&mut self, key: &str) -> (r: Option<StreamEntry>)
        requires
            old(self).wf(),
        ensures
            final(self).wf(),
            final(self).active_key == old(self).active_key,
            final(self).rtmp_port == old(self).rtmp_port,
            !has_key(final(self).streams@, key@),
            final(self)@.streams == old(self)@.streams.remove(key@),
            match r {
                Some(row) => row.key@ == key@ && old(self)@.streams.contains_key(key@)
                    && old(self)@.streams[key@] == row.state@ && row.state@.wf(),
                None => !old(self)@.streams.contains_key(key@),
            },
    {
        match self.find(key) {
            Some(i) => {
                proof {
                    lemma_table_remove(self.streams@, i as int);
                }
                let row = self.streams.remove(i);
                Some(row)
            },
            None => {
                None
            },
        }
    }

    /// Puts a row into a table that does not hold its key.
    fn put(&mut self, row: StreamEntry)
        requires
            old(self).wf(),
            !has_key(old(self).streams@, row.key@),
            row.state@.wf(),
        ensures
            final(self).wf(),
            final(self).active_key == old(self).active_key,
            final(self).rtmp_port == old(self).rtmp_port,
            final(self)@.streams == old(self)@.streams.insert(row.key@, row.state@),
    {
        proof {
            lemma_table_push(self.streams@, row);
        }
        self.streams.push(row);
    }

    /// Creates the state of the stream `key`: empty prefix, empty group of
    /// pictures, no data. A stream of that id that was there is replaced.
    pub fn register_stream(&mut self, key: &str)
        requires
            old(self).wf(),
        ensures
            final(self).wf(),
            final(self)@ == (ManagerView {
                streams: old(self)@.streams.insert(key@, StreamStateView::fresh()),
                ..old(self)@
            }),
    {
        let _ = self.take(key);
        self.put(StreamEntry { key: key.to_owned(), state: StreamState::new() });
        assert(self@.streams =~= old(self)@.streams.insert(key@, StreamStateView::fresh()));
    }

    /// Takes in one chunk for the stream `key`: it joins the init prefix
    /// unless the prefix is frozen. Says whether this was the stream's first
    /// chunk, which is when waiting viewers are to be woken. Nothing happens
    /// where the stream is not registered.
    pub fn append_data(&mut self, key: &str, chunk: &Bytes) -> (first: bool)
        requires
            old(self).wf(),
        ensures
            final(self).wf(),
            final(self)@ == old(self)@.append(key@, frozen(*chunk)),
            first == (old(self)@.streams.contains_key(key@) && !old(self)@.streams[key@].has_data),
    {
        match self.take(key) {
            Some(row) => {
                let mut row = row;
                let first = row.state.append(chunk);
                self.put(row);
                assert(self@.streams =~= old(self)@.streams.insert(
                    key@,
                    old(self)@.streams[key@].append(frozen(*chunk)),
                ));
                first
            },
            None => {
                assert(self@.streams =~= old(self)@.streams);
                false
            },
        }
    }

    /// The same as [`StreamManager::append_data`].
    pub fn append_header(&mut self, key: &str, chunk: &Bytes) -> (first: bool)
        requires
            old(self).wf(),
        ensures
            final(self).wf(),
            final(self)@ == old(self)@.append(key@, frozen(*chunk)),
            first == (old(self)@.streams.contains_key(key@) && !old(self)@.streams[key@].has_data),
    {
        self.append_data(key, chunk)
    }

    /// Whether the init prefix of `key` has reached its cap; `false` where
    /// the stream is not registered.
    pub fn is_header_full(&self, key: &str) -> (full: bool)
        requires
            self.wf(),
        ensures
            full == (self@.streams.contains_key(key@) && self@.streams[key@].frozen_prefix()),
    {
        match self.find(key) {
            Some(i) => {
                self.streams[i].state.is_full()
            },
            None => false,
        }
    }

    /// Replaces the group of pictures of `key` by a copy of `snapshot`.
    /// Nothing happens where the stream is not registered.
    pub fn update_gop(&mut self, key: &str, snapshot: &Vec<Bytes>)
        requires
            old(self).wf(),
        ensures
            final(self).wf(),
            final(self)@ == old(self)@.with_gop(key@, chunk_seq(snapshot@)),
    {
        match self.take(key) {
            Some(row) => {
                let mut row = row;
                row.state.set_gop(snapshot);
                self.put(row);
                assert(self@.streams =~= old(self)@.streams.insert(
                    key@,
                    old(self)@.streams[key@].with_gop(chunk_seq(snapshot@)),
                ));
            },
            None => {
                assert(self@.streams =~= old(self)@.streams);
            },
        }
    }

    /// Whether data has arrived on `key`; `false` where the stream is not
    /// registered.
    pub fn has_data_ready(&self, key: &str) -> (ready: bool)
        requires
            self.wf(),
        ensures
            ready == (self@.streams.contains_key(key@) && self@.streams[key@].has_data),
    {
        match self.find(key) {
            Some(i) => {
                self.streams[i].state.has_data()
            },
            None => false,
        }
    }

    /// One step of a viewer's wait for data on `key`. A viewer that starts
    /// is through at once where data is there and awaits the notifier
    /// otherwise; one that was notified is through where data is there now
    /// and gives up otherwise; one whose time ran out gives up.
    pub fn wait_for_data(&self, key: &str, event: WaitEvent) -> (action: WaitAction)
        requires
            self.wf(),
        ensures
            action == match event {
                WaitEvent::Start => if self@.stream(key@).has_data {
                    WaitAction::Ready
                } else {
                    WaitAction::Await
                },
                WaitEvent::Notified => if self@.stream(key@).has_data {
                    WaitAction::Ready
                } else {
                    WaitAction::NotReady
                },
                WaitEvent::TimedOut => WaitAction::NotReady,
            },
    {
        match event {
            WaitEvent::Start => if self.has_data_ready(key) {
                WaitAction::Ready
            } else {
                WaitAction::Await
            },
            WaitEvent::Notified => if self.has_data_ready(key) {
                WaitAction::Ready
            } else {
                WaitAction::NotReady
            },
            WaitEvent::TimedOut => WaitAction::NotReady,
        }
    }

    /// A copy of the init prefix of `key`; empty where the stream is not
    /// registered.
    pub fn get_header_chunks(&self, key: &str) -> (chunks: Vec<Bytes>)
        requires
            self.wf(),
        ensures
            chunk_seq(chunks@) == self@.stream(key@).init_prefix,
    {
        match self.find(key) {
            Some(i) => {
                self.streams[i].state.snapshot().prefix
            },
            None => {
                let chunks: Vec<Bytes> = Vec::new();
                chunks
            },
        }
    }

    /// What a viewer that joins `key` now starts from: the init prefix and
    /// the group of pictures, taken together. `None` where the stream is not
    /// registered.
    pub fn subscribe_with_headers(&self, key: &str) -> (s: Option<Snapshot>)
        requires
            self.wf(),
        ensures
            s is Some <==> self@.streams.contains_key(key@),
            s matches Some(snap) ==> chunk_seq(snap.prefix@) == self@.streams[key@].init_prefix
                && chunk_seq(snap.gop@) == self@.streams[key@].gop,
    {
        match self.find(key) {
            Some(i) => {
                Some(self.streams[i].state.snapshot())
            },
            None => None,
        }
    }

    /// Drops the state of the stream `key`.
    pub fn remove_stream(&mut self, key: &str)
        requires
            old(self).wf(),
        ensures
            final(self).wf(),
            final(self)@ == (ManagerView {
                streams: old(self)@.streams.remove(key@),
                ..old(self)@
            }),
    {
        let _ = self.take(key);
    }

    /// Makes `key` the active stream key.
    pub fn set_active_key(&mut self, key: &str)
        ensures
            final(self)@ == (ManagerView { active_key: Some(key@), ..old(self)@ }),
            old(self).wf() ==> final(self).wf(),
    {
        self.active_key = Some(key.to_owned());
    }

    /// Clears the active stream key.
    pub fn clear_active_key(&mut self)
        ensures
            final(self)@ == (ManagerView { active_key: None, ..old(self)@ }),
            old(self).wf() ==> final(self).wf(),
    {
        self.active_key = None;
    }

    /// A copy of the active stream key, if there is one.
    pub fn get_active_key(&self) -> (key: Option<String>)
        ensures
            match key {
                Some(k) => self@.active_key == Some(k@),
                None => self@.active_key is None,
            },
    {
        match &self.active_key {
            Some(k) => Some(k.clone()),
            None => None,
        }
    }

    /// The port of the RTMP listener.
    pub fn get_rtmp_port(&self) -> (port: u16)
        ensures
            port == self@.rtmp_port,
    {
        self.rtmp_port
    }
}

} // verus!
