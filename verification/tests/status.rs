use vyuber::status::{contains_bytes, status_response, stream_is_active, stream_path, whep_url};
use vyuber::transcoder::Transcoder;

#[test]
fn stream_path_uses_the_key_or_the_default() {
    assert_eq!(stream_path(Some("abc")), "live/abc");
    assert_eq!(stream_path(Some("")), "live/");
    assert_eq!(stream_path(None), "live/stream");
}

#[test]
fn whep_url_names_host_port_and_path() {
    assert_eq!(whep_url("127.0.0.1", 8889, "live/abc"), "http://127.0.0.1:8889/live/abc/whep");
    assert_eq!(whep_url("localhost", 1, "p"), "http://localhost:1/p/whep");
}

#[test]
fn status_response_carries_both_urls() {
    let r = status_response(true, 8889, "live/abc");
    assert!(r.active);
    assert_eq!(r.webrtc_url, "http://localhost:8889/live/abc");
    assert_eq!(r.whep_url, "http://localhost:8889/live/abc/whep");
    let r = status_response(false, 65535, "live/stream");
    assert!(!r.active);
    assert_eq!(r.webrtc_url, "http://localhost:65535/live/stream");
}

#[test]
fn byte_search_finds_what_is_there() {
    assert!(contains_bytes(b"hello world", b"hello"));
    assert!(contains_bytes(b"hello world", b"world"));
    assert!(contains_bytes(b"hello world", b"o w"));
    assert!(contains_bytes(b"hello world", b""));
    assert!(contains_bytes(b"", b""));
    assert!(contains_bytes(b"aab", b"ab"));
    assert!(contains_bytes(b"abc", b"abc"));
    assert!(!contains_bytes(b"hello world", b"worlds"));
    assert!(!contains_bytes(b"hello world", b"xyz"));
    assert!(!contains_bytes(b"", b"a"));
    assert!(!contains_bytes(b"ab", b"abc"));
    assert!(!contains_bytes(b"abab", b"bb"));
}

#[test]
fn byte_search_agrees_with_the_standard_library() {
    let texts = ["", "a", "ab", "aba", "abab", "live/abc", "{\"ready\":true}", "xx\u{3042}yy"];
    for hay in texts {
        for needle in texts {
            assert_eq!(
                contains_bytes(hay.as_bytes(), needle.as_bytes()),
                hay.contains(needle),
                "{hay:?} {needle:?}"
            );
        }
    }
}

#[test]
fn stream_is_active_needs_the_path_and_the_ready_flag() {
    let listed = r#"{"items":[{"name":"live/abc","ready":true}]}"#;
    assert!(stream_is_active(listed, "live/abc"));
    assert!(!stream_is_active(listed, "live/xyz"));
    let not_ready = r#"{"items":[{"name":"live/abc","ready":false}]}"#;
    assert!(!stream_is_active(not_ready, "live/abc"));
    assert!(!stream_is_active("", "live/abc"));
    let spaced = r#"{"items":[{"name":"live/abc","ready": true}]}"#;
    assert!(!stream_is_active(spaced, "live/abc"));
}

#[test]
fn transcoder_urls_and_arguments() {
    let t = Transcoder::new("k1".to_string());
    assert_eq!(t.input_url(), "rtmp://localhost:1935/live/k1");
    assert_eq!(t.output_url(), "http://localhost:8888/live/k1.flv");
    assert_eq!(
        t.process_args(),
        vec![
            "-i",
            "rtmp://localhost:1935/live/k1",
            "-c:v",
            "copy",
            "-c:a",
            "copy",
            "-f",
            "flv",
            "http://localhost:8888/live/k1.flv"
        ]
    );
}
