use vyuber::amf0::{amf_num, amf_prop_num, amf_prop_str, amf_str, parse_cmd_header};
use vyuber::amf0_value::Amf0Value;

fn same(a: &Amf0Value, b: &Amf0Value) -> bool {
    match (a, b) {
        (Amf0Value::Number(x), Amf0Value::Number(y)) => x == y,
        (Amf0Value::Boolean(x), Amf0Value::Boolean(y)) => x == y,
        (Amf0Value::String(x), Amf0Value::String(y)) => x == y,
        (Amf0Value::Null, Amf0Value::Null) => true,
        (Amf0Value::Object(x), Amf0Value::Object(y)) => {
            x.len() == y.len()
                && x.iter()
                    .zip(y.iter())
                    .all(|(p, q)| p.0 == q.0 && same(&p.1, &q.1))
        }
        _ => false,
    }
}

fn num(v: f64) -> Amf0Value {
    Amf0Value::Number(v.to_bits())
}

fn text(s: &str) -> Amf0Value {
    Amf0Value::String(s.as_bytes().to_vec())
}

fn encoded(v: &Amf0Value) -> Vec<u8> {
    let mut out = Vec::new();
    v.encode(&mut out);
    out
}

#[test]
fn amf_str_writes_marker_length_and_bytes() {
    let mut buf = vec![0xAAu8];
    amf_str(&mut buf, "connect");
    assert_eq!(buf, [&[0xAA, 0x02, 0x00, 0x07][..], b"connect"].concat());
}

#[test]
fn amf_str_of_the_empty_string() {
    let mut buf = Vec::new();
    amf_str(&mut buf, "");
    assert_eq!(buf, vec![0x02, 0x00, 0x00]);
}

#[test]
fn amf_str_counts_bytes_not_characters() {
    let mut buf = Vec::new();
    amf_str(&mut buf, "é");
    assert_eq!(buf, vec![0x02, 0x00, 0x02, 0xC3, 0xA9]);
}

#[test]
fn amf_str_length_in_two_bytes() {
    let long = "x".repeat(300);
    let mut buf = Vec::new();
    amf_str(&mut buf, &long);
    assert_eq!(&buf[..3], &[0x02, 0x01, 0x2C]);
    assert_eq!(buf.len(), 303);
}

#[test]
fn amf_num_writes_the_double_big_endian() {
    let mut buf = Vec::new();
    amf_num(&mut buf, 1.0f64.to_bits());
    assert_eq!(buf, vec![0x00, 0x3F, 0xF0, 0, 0, 0, 0, 0, 0]);
    let mut buf = Vec::new();
    amf_num(&mut buf, 31.0f64.to_bits());
    assert_eq!(buf, [&[0x00u8][..], &31.0f64.to_be_bytes()[..]].concat());
}

#[test]
fn amf_prop_str_writes_key_then_string() {
    let mut buf = Vec::new();
    amf_prop_str(&mut buf, "level", "status");
    assert_eq!(
        buf,
        [&[0x00, 0x05][..], b"level", &[0x02, 0x00, 0x06], b"status"].concat()
    );
}

#[test]
fn amf_prop_num_writes_key_then_number() {
    let mut buf = Vec::new();
    amf_prop_num(&mut buf, "capabilities", 31.0f64.to_bits());
    assert_eq!(
        buf,
        [&[0x00, 0x0C][..], b"capabilities", &[0x00], &31.0f64.to_be_bytes()].concat()
    );
}

#[test]
fn command_header_with_name_and_transaction() {
    let mut data = Vec::new();
    amf_str(&mut data, "createStream");
    amf_num(&mut data, 4.0f64.to_bits());
    data.push(0x05);
    let h = parse_cmd_header(&data).expect("a command");
    assert_eq!(h.name, b"createStream".to_vec());
    assert_eq!(f64::from_bits(h.transaction_id), 4.0);
}

#[test]
fn command_header_without_number_has_transaction_zero() {
    let mut data = Vec::new();
    amf_str(&mut data, "publish");
    let h = parse_cmd_header(&data).expect("a command");
    assert_eq!(h.name, b"publish".to_vec());
    assert_eq!(h.transaction_id, 0);
    // A number marker with fewer than eight bytes after it.
    data.extend_from_slice(&[0x00, 0x40, 0x10]);
    let h = parse_cmd_header(&data).expect("a command");
    assert_eq!(h.transaction_id, 0);
    // Something that is not a number.
    let mut data = Vec::new();
    amf_str(&mut data, "publish");
    data.extend_from_slice(&[0x05, 0, 0, 0, 0, 0, 0, 0, 0]);
    assert_eq!(parse_cmd_header(&data).expect("a command").transaction_id, 0);
}

#[test]
fn command_header_refuses_what_is_no_string() {
    assert!(parse_cmd_header(&[]).is_none());
    assert!(parse_cmd_header(&[0x00, 0, 0]).is_none());
    assert!(parse_cmd_header(&[0x02]).is_none());
    assert!(parse_cmd_header(&[0x02, 0x00]).is_none());
    assert!(parse_cmd_header(&[0x02, 0x00, 0x05, b'a', b'b']).is_none());
    assert!(parse_cmd_header(&[0x02, 0x00, 0x00]).is_some());
}

#[test]
fn values_encode_to_their_wire_form() {
    assert_eq!(encoded(&Amf0Value::Null), vec![0x05]);
    assert_eq!(encoded(&Amf0Value::Boolean(true)), vec![0x01, 0x01]);
    assert_eq!(encoded(&Amf0Value::Boolean(false)), vec![0x01, 0x00]);
    assert_eq!(
        encoded(&num(0.0)),
        vec![0x00, 0, 0, 0, 0, 0, 0, 0, 0]
    );
    assert_eq!(encoded(&text("hi")), vec![0x02, 0x00, 0x02, b'h', b'i']);
    let obj = Amf0Value::Object(vec![
        (b"a".to_vec(), Amf0Value::Null),
        (b"bc".to_vec(), Amf0Value::Boolean(true)),
    ]);
    assert_eq!(
        encoded(&obj),
        vec![0x03, 0x00, 0x01, b'a', 0x05, 0x00, 0x02, b'b', b'c', 0x01, 0x01, 0x00, 0x00, 0x09]
    );
    assert_eq!(encoded(&Amf0Value::Object(vec![])), vec![0x03, 0x00, 0x00, 0x09]);
}

#[test]
fn values_round_trip() {
    let nested = Amf0Value::Object(vec![
        (b"app".to_vec(), text("live")),
        (b"".to_vec(), num(-2.5)),
        (
            b"inner".to_vec(),
            Amf0Value::Object(vec![
                (b"flag".to_vec(), Amf0Value::Boolean(false)),
                (b"deep".to_vec(), Amf0Value::Object(vec![(b"n".to_vec(), Amf0Value::Null)])),
            ]),
        ),
        (b"tail".to_vec(), text("")),
    ]);
    let values = vec![
        num(0.0),
        num(1.0),
        num(f64::MAX),
        Amf0Value::Number(f64::NAN.to_bits()),
        Amf0Value::Number(0x7FF0_0000_0000_0001),
        text(""),
        text("NetConnection.Connect.Success"),
        Amf0Value::String(vec![0xFF, 0x00, 0x09]),
        Amf0Value::String(vec![b'z'; 65535]),
        Amf0Value::Boolean(true),
        Amf0Value::Boolean(false),
        Amf0Value::Null,
        Amf0Value::Object(vec![]),
        nested,
    ];
    for v in &values {
        let mut bytes = encoded(v);
        let len = bytes.len();
        bytes.extend_from_slice(&[0x09, 0x00, 0x03]);
        let (back, used) = Amf0Value::decode(&bytes).expect("a value");
        assert_eq!(used, len);
        assert!(same(&back, v));
    }
}

#[test]
fn ecma_array_reads_as_object() {
    let bytes = vec![
        0x08, 0x00, 0x00, 0x00, 0x01, 0x00, 0x01, b'k', 0x02, 0x00, 0x01, b'v', 0x00, 0x00, 0x09,
    ];
    let (v, used) = Amf0Value::decode(&bytes).expect("a value");
    assert_eq!(used, bytes.len());
    assert!(same(&v, &Amf0Value::Object(vec![(b"k".to_vec(), text("v"))])));
}

#[test]
fn boolean_is_true_for_any_nonzero_byte() {
    let (v, used) = Amf0Value::decode(&[0x01, 0x7F]).expect("a value");
    assert_eq!(used, 2);
    assert!(same(&v, &Amf0Value::Boolean(true)));
}

#[test]
fn decode_refuses_truncated_and_unknown_forms() {
    assert!(Amf0Value::decode(&[]).is_none());
    assert!(Amf0Value::decode(&[0x00, 1, 2, 3, 4, 5, 6, 7]).is_none());
    assert!(Amf0Value::decode(&[0x01]).is_none());
    assert!(Amf0Value::decode(&[0x02, 0x00]).is_none());
    assert!(Amf0Value::decode(&[0x02, 0x00, 0x03, b'a', b'b']).is_none());
    assert!(Amf0Value::decode(&[0x03, 0x00, 0x01, b'a', 0x05]).is_none());
    assert!(Amf0Value::decode(&[0x03, 0x00, 0x00]).is_none());
    assert!(Amf0Value::decode(&[0x08, 0x00, 0x00, 0x00]).is_none());
    assert!(Amf0Value::decode(&[0x06]).is_none());
    assert!(Amf0Value::decode(&[0x09]).is_none());
    assert!(Amf0Value::decode(&[0x0A, 0, 0, 0, 0]).is_none());
}
