//! What the stream-status endpoint reports, and how the state of a stream
//! is read from the media gateway's list of paths.

use crate::command::bytes_equal;
use crate::stream::StreamStatusResponse;
use crate::stream_key::{decimal, push_decimal};
use vstd::prelude::*;
use vstd::slice::slice_subrange;
use vstd::string::{StringExecFns, StringSliceAdditionalSpecFns};

verus! {

/// The path of a stream at the media gateway: `live/` and the key, or
/// `live/stream` where no key is active.
pub open spec fn stream_path_text(key: Option<Seq<char>>) -> Seq<char> {
    match key {
        Some(k) => "live/"@ + k,
        None => "live/stream"@,
    }
}

/// The path of the stream with the given key.
pub fn stream_path(key: Option<&str>) -> (path: String)
    ensures
        path@ == stream_path_text(
            match key {
                Some(k) => Some(k@),
                None => None,
            },
        ),
{
    match key {
        Some(k) => {
            let mut path = String::new();
            path.append("live/");
            path.append(k);
            path
        },
        None => {
            let mut path = String::new();
            path.append("live/stream");
            path
        },
    }
}

/// The address of a stream at the gateway, as a browser reaches it.
pub open spec fn webrtc_url_text(port: u16, path: Seq<char>) -> Seq<char> {
    "http://localhost:"@ + decimal(port as nat) + "/"@ + path
}

/// The address of a stream's WHEP endpoint, on the given host.
pub open spec fn whep_url_text(host: Seq<char>, port: u16, path: Seq<char>) -> Seq<char> {
    "http://"@ + host + ":"@ + decimal(port as nat) + "/"@ + path + "/whep"@
}

/// The address of a stream's WHEP endpoint, on the given host.
pub fn whep_url(host: &str, port: u16, path: &str) -> (url: String)
    ensures
        url@ == whep_url_text(host@, port, path@),
{
    let mut url = String::new();
    url.append("http://");
    url.append(host);
    url.append(":");
    push_decimal(&mut url, port);
    url.append("/");
    url.append(path);
    url.append("/whep");
    url
}

/// What the status endpoint answers for a stream at `path`.
pub fn status_response(active: bool, webrtc_port: u16, path: &str) -> (r: StreamStatusResponse)
    ensures
        r.active == active,
        r.webrtc_url@ == webrtc_url_text(webrtc_port, path@),
        r.whep_url@ == whep_url_text("localhost"@, webrtc_port, path@),
{
    let mut webrtc_url = String::new();
    webrtc_url.append("http://localhost:");
    push_decimal(&mut webrtc_url, webrtc_port);
    webrtc_url.append("/");
    webrtc_url.append(path);
    StreamStatusResponse { active, webrtc_url, whep_url: whep_url("localhost", webrtc_port, path) }
}

/// Whether `needle` stands in `haystack` at `at`.
pub open spec fn occurs_at(haystack: Seq<u8>, needle: Seq<u8>, at: int) -> bool {
    0 <= at && at + needle.len() <= haystack.len() && haystack.subrange(
        at,
        at + needle.len() as int,
    ) == needle
}

/// Whether `needle` stands somewhere in `haystack`.
pub open spec fn occurs(haystack: Seq<u8>, needle: Seq<u8>) -> bool {
    exists|at: int| occurs_at(haystack, needle, at)
}

/// Whether `needle` stands somewhere in `haystack`.
pub fn contains_bytes(haystack: &[u8], needle: &[u8]) -> (found: bool)
    ensures
        found == occurs(haystack@, needle@),
{
    if needle.len() > haystack.len() {
        assert forall|at: int| !occurs_at(haystack@, needle@, at) by {}
        return false;
    }
    let last = haystack.len() - needle.len();
    let mut at: usize = 0;
    while at < last
        invariant
            at <= last,
            last + needle@.len() == haystack@.len(),
            haystack@.len() <= usize::MAX,
            forall|i: int| 0 <= i < at ==> !occurs_at(haystack@, needle@, i),
        decreases last - at,
    {
        if bytes_equal(slice_subrange(haystack, at, at + needle.len()), needle) {
            assert(occurs_at(haystack@, needle@, at as int));
            return true;
        }
        at += 1;
    }
    if bytes_equal(slice_subrange(haystack, last, haystack.len()), needle) {
        assert(occurs_at(haystack@, needle@, last as int));
        return true;
    }
    assert forall|i: int| !occurs_at(haystack@, needle@, i) by {}
    false
}

/// Whether the gateway's list of paths says that the stream at `path` is
/// live: the list mentions the path and mentions `"ready":true`.
pub fn stream_is_active(body: &str, path: &str) -> (active: bool)
    ensures
        active == (occurs(body.spec_bytes(), path.spec_bytes()) && occurs(
            body.spec_bytes(),
            "\"ready\":true".spec_bytes(),
        )),
{
    contains_bytes(body.as_bytes(), path.as_bytes()) && contains_bytes(
        body.as_bytes(),
        "\"ready\":true".as_bytes(),
    )
}

} // verus!
