//! Plain records of the stream-key and stream-status endpoints.

use vstd::prelude::*;

verus! {

/// A stream key with the addresses that go with it.
#[derive(Debug, Clone)]
pub struct StreamKey {
    pub key: String,
    pub server_url: String,
    pub full_url: String,
}

/// What the stream-key endpoints answer.
#[derive(Debug, Clone)]
pub struct StreamKeyResponse {
    pub stream_key: Option<String>,
    pub server_url: String,
    pub full_url: Option<String>,
}

/// What the stream-status endpoint answers.
pub struct StreamStatusResponse {
    pub active: bool,
    pub webrtc_url: String,
    pub whep_url: String,
}

} // verus!
