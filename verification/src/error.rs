//! What can end a publishing session or refuse a viewer.

use vstd::prelude::*;

verus! {

/// A violation of RTMP chunk framing.
#[derive(Debug, Clone, Copy, PartialEq, Eq, Structural)]
pub enum ProtocolError {
    /// A chunk that inherits header fields arrived on a chunk stream that
    /// never carried a full header, so there is nothing to inherit and no way
    /// to tell whether an extended timestamp follows.
    MissingHeader,
    /// A continuation chunk of a message that uses an extended timestamp did
    /// not repeat that timestamp field.
    ExtendedTimestampMismatch,
    /// The peer announced a chunk size of zero, with which no message body
    /// could ever be carried.
    ZeroChunkSize,
}

/// Why a publishing session ended.
#[derive(Debug, Clone, Copy, PartialEq, Eq, Structural)]
pub enum SessionError {
    /// The first handshake byte was not 3; it is carried here.
    UnsupportedVersion(u8),
    /// The chunk stream was malformed.
    Protocol(ProtocolError),
    /// The peer closed the connection or the socket failed.
    Io,
}

} // verus!
