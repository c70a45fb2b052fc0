use bytes::Bytes;
use vyuber::broker::{StreamManager, WaitAction, WaitEvent};
use vyuber::egress::{
    on_tail_event, response_headers, stream_flv, EgressError, TailAction, TailEvent, STATUS_OK,
    STATUS_UNAVAILABLE, WAIT_FOR_DATA_SECONDS,
};

#[test]
fn cold_start_without_publisher_is_not_ready() {
    let m = StreamManager::new(1935);
    assert_eq!(WAIT_FOR_DATA_SECONDS, 30);
    assert_eq!(m.wait_for_data("live", WaitEvent::Start), WaitAction::Await);
    assert_eq!(m.wait_for_data("live", WaitEvent::TimedOut), WaitAction::NotReady);
    let refused = stream_flv(&m, "live", false).err().expect("refused");
    assert_eq!(refused, EgressError::NotReady);
    assert_eq!(refused.status(), 503);
    assert_eq!(refused.body(), "Stream not ready");
}

#[test]
fn vanished_stream_is_ended() {
    let mut m = StreamManager::new(1935);
    m.register_stream("live");
    m.append_data("live", &Bytes::from_static(b"FLV"));
    m.remove_stream("live");
    let refused = stream_flv(&m, "live", true).err().expect("refused");
    assert_eq!(refused, EgressError::BrokerStreamMissing);
    assert_eq!(refused.status(), STATUS_UNAVAILABLE);
    assert_eq!(refused.body(), "Stream ended");
}

#[test]
fn not_ready_wins_over_missing() {
    let m = StreamManager::new(1935);
    assert_eq!(stream_flv(&m, "live", false).err(), Some(EgressError::NotReady));
}

#[test]
fn opening_is_prefix_then_gop() {
    let mut m = StreamManager::new(1935);
    m.register_stream("live");
    m.append_data("live", &Bytes::from_static(b"head"));
    m.append_data("live", &Bytes::from_static(b"tag1"));
    m.update_gop("live", &vec![Bytes::from_static(b"key"), Bytes::from_static(b"p")]);
    let opening = stream_flv(&m, "live", true).expect("the stream is there");
    let chunks: Vec<&[u8]> = opening.iter().map(|c| &c[..]).collect();
    assert_eq!(chunks, vec![&b"head"[..], b"tag1", b"key", b"p"]);
    assert_eq!(STATUS_OK, 200);
}

#[test]
fn response_headers_are_the_four() {
    let h: Vec<(&str, &str)> = response_headers().iter().map(|h| (h.name, h.value)).collect();
    assert_eq!(
        h,
        vec![
            ("Content-Type", "video/x-flv"),
            ("Cache-Control", "no-cache, no-store"),
            ("Transfer-Encoding", "chunked"),
            ("Access-Control-Allow-Origin", "*"),
        ]
    );
}

#[test]
fn tail_events() {
    match on_tail_event(TailEvent::Chunk(Bytes::from_static(b"abc"))) {
        TailAction::Emit(b) => assert_eq!(&b[..], b"abc"),
        _ => panic!("a chunk is written"),
    }
    assert!(matches!(on_tail_event(TailEvent::Lagged(5000)), TailAction::Skip));
    assert!(matches!(on_tail_event(TailEvent::Closed), TailAction::End));
}

#[test]
fn slow_subscriber_skips_ahead_and_goes_on() {
    let events = vec![
        TailEvent::Chunk(Bytes::from_static(b"t1")),
        TailEvent::Lagged(3000),
        TailEvent::Chunk(Bytes::from_static(b"t9")),
        TailEvent::Lagged(1),
        TailEvent::Lagged(2),
        TailEvent::Chunk(Bytes::from_static(b"t10")),
        TailEvent::Closed,
        TailEvent::Chunk(Bytes::from_static(b"never")),
    ];
    let mut body = Vec::new();
    for e in events {
        match on_tail_event(e) {
            TailAction::Emit(b) => body.extend_from_slice(&b),
            TailAction::Skip => {}
            TailAction::End => break,
        }
    }
    assert_eq!(body, b"t1t9t10".to_vec());
}
