use vyuber::chat::{ChatComment, ChatMessage, ChatRequest, ChatResponse, ErrorResponse};
use vyuber::config::{
    parse_port, rtmp_port_from, Config, DEFAULT_HTTP_FLV_PORT, DEFAULT_RTMP_PORT,
};
use vyuber::stream::{StreamKey, StreamKeyResponse, StreamStatusResponse};
use vyuber::transcoder::Transcoder;

#[test]
fn ports_parse_like_unsigned_numbers() {
    assert_eq!(parse_port("1935"), Some(1935));
    assert_eq!(parse_port("0"), Some(0));
    assert_eq!(parse_port("65535"), Some(65535));
    assert_eq!(parse_port("+80"), Some(80));
    assert_eq!(parse_port("00080"), Some(80));
    assert_eq!(parse_port("0000000000000000000065535"), Some(65535));
    for bad in ["", "+", "65536", "99999", "100000000000000000000", "-1", " 80", "80 ", "8o", "++1", "1+", "0x50", "٣"] {
        assert_eq!(parse_port(bad), None, "{bad:?}");
    }
}

#[test]
fn port_parsing_agrees_with_the_standard_library() {
    let texts = [
        "1", "12", "123", "1234", "12345", "123456", "65534", "65535", "65536", "70000", "+0",
        "+65535", "+65536", "0", "00", "", "+", "-", "-0", "a", "1a", "a1", "6553 5", "1.0",
    ];
    for t in texts {
        assert_eq!(parse_port(t), t.parse::<u16>().ok(), "{t:?}");
    }
}

#[test]
fn rtmp_port_falls_back_to_1935() {
    assert_eq!(DEFAULT_RTMP_PORT, 1935);
    assert_eq!(rtmp_port_from(None), 1935);
    assert_eq!(rtmp_port_from(Some("2000")), 2000);
    assert_eq!(rtmp_port_from(Some("nonsense")), 1935);
    assert_eq!(rtmp_port_from(Some("")), 1935);
    assert_eq!(rtmp_port_from(Some("70000")), 1935);
}

#[test]
fn config_from_values() {
    let c = Config::from_values("k".to_string(), None, None).expect("defaults");
    assert_eq!((c.rtmp_port, c.http_flv_port), (1935, 8888));
    assert_eq!(DEFAULT_HTTP_FLV_PORT, 8888);
    assert_eq!(c.gemini_api_key, "k");
    let c = Config::from_values("k".to_string(), Some("1"), Some("2")).expect("both given");
    assert_eq!((c.rtmp_port, c.http_flv_port), (1, 2));
    assert!(Config::from_values("k".to_string(), Some("x"), None).is_none());
    assert!(Config::from_values("k".to_string(), None, Some("65536")).is_none());
}

#[test]
fn transcoder_keeps_its_key() {
    let t = Transcoder::new("abc123".to_string());
    assert_eq!(t.stream_key(), "abc123");
    assert_eq!(Transcoder::new(String::new()).stream_key(), "");
}

#[test]
fn plain_records_hold_what_they_are_given() {
    let m = ChatMessage { id: 7, user: "u".into(), text: "t".into(), color: "c".into() };
    let m2 = m.clone();
    assert_eq!((m2.id, m2.user.as_str(), m2.text.as_str(), m2.color.as_str()), (7, "u", "t", "c"));
    let c = ChatComment { user: "u".into(), text: "t".into(), color: "c".into() };
    let resp = ChatResponse { comments: vec![c.clone(), c] };
    assert_eq!(resp.comments.len(), 2);
    let req = ChatRequest { message: "hello".into() };
    assert_eq!(req.message, "hello");
    let e = ErrorResponse { error: "API Error".into(), details: None };
    assert_eq!((e.error.as_str(), e.details), ("API Error", None));
    let k = StreamKey { key: "k".into(), server_url: "s".into(), full_url: "f".into() };
    assert_eq!(format!("{:?}", k.clone()), format!("{k:?}"));
    let r = StreamKeyResponse { stream_key: None, server_url: "s".into(), full_url: None };
    assert_eq!(r.clone().server_url, "s");
    let st = StreamStatusResponse { active: true, webrtc_url: "w".into(), whep_url: "h".into() };
    assert!(st.active && st.webrtc_url == "w" && st.whep_url == "h");
}
