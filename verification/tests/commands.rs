use vyuber::amf0::{amf_num, amf_str};
use vyuber::amf0_value::Amf0Value;
use vyuber::chunk::{ChunkDemux, ChunkRead, RtmpMessage};
use vyuber::command::{
    be_bytes, bytes_equal, classify_command, handle_command, send_amf_msg, send_connect_result,
    send_create_stream_result, send_null_result, send_on_status, send_proto, send_reply, Command,
    NUM_ONE, NUM_THIRTY_ONE, NUM_ZERO, OUT_CHUNK_SIZE, WINDOW_ACK_SIZE,
};

fn command(name: &str, tx: f64) -> Vec<u8> {
    let mut data = Vec::new();
    amf_str(&mut data, name);
    amf_num(&mut data, tx.to_bits());
    data.push(0x05);
    data
}

fn read_all(bytes: &[u8], chunk_size: u32) -> Vec<RtmpMessage> {
    let mut d = ChunkDemux::new();
    d.set_chunk_size(chunk_size).expect("a chunk size");
    let mut pos = 0;
    let mut out = Vec::new();
    while pos < bytes.len() {
        match d.read_chunk(&bytes[pos..]).expect("sound framing") {
            ChunkRead::Taken { used, message } => {
                pos += used;
                out.extend(message);
            }
            ChunkRead::NeedMore => panic!("the server wrote half a chunk"),
        }
    }
    out
}

fn values(mut data: &[u8]) -> Vec<Amf0Value> {
    let mut out = Vec::new();
    while !data.is_empty() {
        let (v, used) = Amf0Value::decode(data).expect("a value");
        out.push(v);
        data = &data[used..];
    }
    out
}

fn as_text(v: &Amf0Value) -> String {
    match v {
        Amf0Value::String(s) => String::from_utf8(s.clone()).expect("text"),
        _ => panic!("not a string"),
    }
}

fn as_number(v: &Amf0Value) -> f64 {
    match v {
        Amf0Value::Number(bits) => f64::from_bits(*bits),
        _ => panic!("not a number"),
    }
}

fn property<'a>(v: &'a Amf0Value, key: &str) -> &'a Amf0Value {
    match v {
        Amf0Value::Object(props) => {
            &props.iter().find(|p| p.0 == key.as_bytes()).expect("the property").1
        }
        _ => panic!("not an object"),
    }
}

#[test]
fn number_constants_are_the_doubles() {
    assert_eq!(f64::from_bits(NUM_ZERO), 0.0);
    assert_eq!(f64::from_bits(NUM_ONE), 1.0);
    assert_eq!(f64::from_bits(NUM_THIRTY_ONE), 31.0);
    assert_eq!(WINDOW_ACK_SIZE, 2_500_000);
    assert_eq!(OUT_CHUNK_SIZE, 4096);
}

#[test]
fn proto_message_layout() {
    let mut w = vec![0x99u8];
    send_proto(&mut w, 5, &[0x00, 0x26, 0x25, 0xA0]);
    assert_eq!(
        w,
        vec![0x99, 0x02, 0, 0, 0, 0, 0, 4, 5, 0, 0, 0, 0, 0x00, 0x26, 0x25, 0xA0]
    );
}

#[test]
fn amf_message_layout_for_a_short_body() {
    let mut w = Vec::new();
    send_amf_msg(&mut w, 3, 0x0102_0304, &[0xAA, 0xBB]);
    assert_eq!(w, vec![0x03, 0, 0, 0, 0, 0, 2, 20, 0x04, 0x03, 0x02, 0x01, 0xAA, 0xBB]);
}

#[test]
fn amf_message_is_split_at_4096_bytes() {
    let body: Vec<u8> = (0..10000u32).map(|i| (i % 251) as u8).collect();
    let mut w = Vec::new();
    send_amf_msg(&mut w, 5, 1, &body);
    assert_eq!(w.len(), 12 + 10000 + 2);
    assert_eq!(&w[4..7], &[0x00, 0x27, 0x10]);
    assert_eq!(w[12 + 4096], 0xC5);
    assert_eq!(w[12 + 4096 + 1 + 4096], 0xC5);
    assert_eq!(&w[12..12 + 4096], &body[..4096]);
    assert_eq!(&w[12 + 4097..12 + 4097 + 4096], &body[4096..8192]);
    assert_eq!(&w[12 + 4097 + 4097..], &body[8192..]);
    let got = read_all(&w, 4096);
    assert_eq!(got.len(), 1);
    assert_eq!((got[0].chunk_stream_id, got[0].message_type), (5, 20));
    assert_eq!((got[0].message_stream_id, got[0].timestamp), (1, 0));
    assert_eq!(&got[0].payload[..], &body[..]);
}

#[test]
fn amf_message_of_exactly_one_chunk_has_no_continuation() {
    let body = vec![7u8; 4096];
    let mut w = Vec::new();
    send_amf_msg(&mut w, 3, 0, &body);
    assert_eq!(w.len(), 12 + 4096);
    let mut w = Vec::new();
    send_amf_msg(&mut w, 3, 0, &[]);
    assert_eq!(w.len(), 12);
}

#[test]
fn connect_result_carries_the_properties() {
    let mut w = Vec::new();
    send_connect_result(&mut w, 1.0f64.to_bits());
    let got = read_all(&w, 4096);
    assert_eq!(got.len(), 1);
    assert_eq!((got[0].chunk_stream_id, got[0].message_stream_id), (3, 0));
    let v = values(&got[0].payload);
    assert_eq!(v.len(), 4);
    assert_eq!(as_text(&v[0]), "_result");
    assert_eq!(as_number(&v[1]), 1.0);
    assert_eq!(as_text(property(&v[2], "fmsVer")), "FMS/3,0,1,123");
    assert_eq!(as_number(property(&v[2], "capabilities")), 31.0);
    assert_eq!(as_text(property(&v[3], "level")), "status");
    assert_eq!(as_text(property(&v[3], "code")), "NetConnection.Connect.Success");
    assert_eq!(as_text(property(&v[3], "description")), "Connection succeeded.");
    assert_eq!(as_number(property(&v[3], "objectEncoding")), 0.0);
}

#[test]
fn create_stream_result_assigns_stream_one() {
    let mut w = Vec::new();
    send_create_stream_result(&mut w, 4.0f64.to_bits());
    let got = read_all(&w, 4096);
    let v = values(&got[0].payload);
    assert_eq!(v.len(), 4);
    assert_eq!(as_text(&v[0]), "_result");
    assert_eq!(as_number(&v[1]), 4.0);
    assert!(matches!(v[2], Amf0Value::Null));
    assert_eq!(as_number(&v[3]), 1.0);
}

#[test]
fn null_result_is_result_transaction_null() {
    let mut w = Vec::new();
    send_null_result(&mut w, 2.0f64.to_bits());
    let expected_body = {
        let mut b = Vec::new();
        amf_str(&mut b, "_result");
        amf_num(&mut b, 2.0f64.to_bits());
        b.push(0x05);
        b
    };
    let got = read_all(&w, 4096);
    assert_eq!(&got[0].payload[..], &expected_body[..]);
    assert_eq!((got[0].chunk_stream_id, got[0].message_stream_id), (3, 0));
}

#[test]
fn on_status_says_publish_start() {
    let mut w = Vec::new();
    send_on_status(&mut w);
    let got = read_all(&w, 4096);
    assert_eq!((got[0].chunk_stream_id, got[0].message_stream_id), (5, 1));
    let v = values(&got[0].payload);
    assert_eq!(as_text(&v[0]), "onStatus");
    assert_eq!(as_number(&v[1]), 0.0);
    assert!(matches!(v[2], Amf0Value::Null));
    assert_eq!(as_text(property(&v[3], "level")), "status");
    assert_eq!(as_text(property(&v[3], "code")), "NetStream.Publish.Start");
    assert_eq!(as_text(property(&v[3], "description")), "Start publishing");
}

#[test]
fn names_are_told_apart() {
    assert_eq!(classify_command(b"connect"), Command::Connect);
    assert_eq!(classify_command(b"createStream"), Command::CreateStream);
    assert_eq!(classify_command(b"publish"), Command::Publish);
    for name in ["releaseStream", "FCPublish", "deleteStream", "FCUnpublish"] {
        assert_eq!(classify_command(name.as_bytes()), Command::Acknowledged);
    }
    for name in ["", "Connect", "connect ", "play", "_checkbw", "publis", "FCpublish"] {
        assert_eq!(classify_command(name.as_bytes()), Command::Ignored);
    }
    assert_eq!(classify_command(&[0xFF, 0xFE]), Command::Ignored);
}

#[test]
fn byte_strings_compare() {
    assert!(bytes_equal(b"", b""));
    assert!(bytes_equal(b"abc", b"abc"));
    assert!(!bytes_equal(b"abc", b"abd"));
    assert!(!bytes_equal(b"abc", b"ab"));
    assert_eq!(be_bytes(0x0102_0304), vec![1, 2, 3, 4]);
}

#[test]
fn connect_is_answered_with_the_control_burst_in_order() {
    let mut w = Vec::new();
    assert_eq!(handle_command(&command("connect", 1.0), &mut w), Command::Connect);
    // The burst is sent while the peer still reads with chunk size 128.
    let mut expected = Vec::new();
    send_proto(&mut expected, 5, &2_500_000u32.to_be_bytes());
    send_proto(&mut expected, 6, &[0x00, 0x26, 0x25, 0xA0, 2]);
    send_proto(&mut expected, 1, &4096u32.to_be_bytes());
    send_connect_result(&mut expected, 1.0f64.to_bits());
    assert_eq!(w, expected);
    assert_eq!(&w[..16], &[2, 0, 0, 0, 0, 0, 4, 5, 0, 0, 0, 0, 0x00, 0x26, 0x25, 0xA0]);
    assert_eq!(&w[16..33], &[2, 0, 0, 0, 0, 0, 5, 6, 0, 0, 0, 0, 0x00, 0x26, 0x25, 0xA0, 2]);
    assert_eq!(&w[33..49], &[2, 0, 0, 0, 0, 0, 4, 1, 0, 0, 0, 0, 0x00, 0x00, 0x10, 0x00]);
    let got = read_all(&w, 4096);
    assert_eq!(
        got.iter().map(|m| m.message_type).collect::<Vec<_>>(),
        vec![5, 6, 1, 20]
    );
    assert_eq!(as_text(&values(&got[3].payload)[0]), "_result");
}

#[test]
fn create_stream_is_answered_with_the_stream_id() {
    let mut w = Vec::new();
    assert_eq!(handle_command(&command("createStream", 4.0), &mut w), Command::CreateStream);
    let mut expected = Vec::new();
    send_create_stream_result(&mut expected, 4.0f64.to_bits());
    assert_eq!(w, expected);
}

#[test]
fn publish_is_answered_with_stream_begin_and_status() {
    let mut w = Vec::new();
    assert_eq!(handle_command(&command("publish", 5.0), &mut w), Command::Publish);
    let mut expected = Vec::new();
    send_proto(&mut expected, 4, &[0, 0, 0, 0, 0, 1]);
    send_on_status(&mut expected);
    assert_eq!(w, expected);
    let got = read_all(&w, 4096);
    assert_eq!(got[0].message_type, 4);
    assert_eq!(&got[0].payload[..], &[0, 0, 0, 0, 0, 1]);
    assert_eq!(got[1].message_type, 20);
}

#[test]
fn housekeeping_commands_are_acknowledged() {
    for name in ["releaseStream", "FCPublish", "deleteStream", "FCUnpublish"] {
        let mut w = Vec::new();
        assert_eq!(handle_command(&command(name, 3.0), &mut w), Command::Acknowledged);
        let mut expected = Vec::new();
        send_null_result(&mut expected, 3.0f64.to_bits());
        assert_eq!(w, expected);
    }
}

#[test]
fn other_commands_and_garbage_are_ignored() {
    let mut w = vec![1u8, 2, 3];
    assert_eq!(handle_command(&command("play", 3.0), &mut w), Command::Ignored);
    assert_eq!(handle_command(&[], &mut w), Command::Ignored);
    assert_eq!(handle_command(&[0x05], &mut w), Command::Ignored);
    assert_eq!(handle_command(&[0x02, 0x00, 0x09, b'c'], &mut w), Command::Ignored);
    assert_eq!(w, vec![1, 2, 3]);
}

#[test]
fn reply_for_each_kind() {
    let mut w = Vec::new();
    send_reply(&mut w, Command::Ignored, 1);
    assert!(w.is_empty());
    send_reply(&mut w, Command::Acknowledged, 2.0f64.to_bits());
    let mut expected = Vec::new();
    send_null_result(&mut expected, 2.0f64.to_bits());
    assert_eq!(w, expected);
}

#[test]
fn command_without_transaction_is_answered_with_zero() {
    let mut data = Vec::new();
    amf_str(&mut data, "releaseStream");
    let mut w = Vec::new();
    assert_eq!(handle_command(&data, &mut w), Command::Acknowledged);
    let mut expected = Vec::new();
    send_null_result(&mut expected, 0);
    assert_eq!(w, expected);
}
