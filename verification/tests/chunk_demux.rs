use vyuber::chunk::{ChunkDemux, ChunkRead, RtmpMessage};
use vyuber::error::ProtocolError;

fn basic(fmt: u8, cs_id: u32) -> Vec<u8> {
    if cs_id < 64 {
        vec![(fmt << 6) | cs_id as u8]
    } else if cs_id < 320 {
        vec![fmt << 6, (cs_id - 64) as u8]
    } else {
        vec![(fmt << 6) | 1, ((cs_id - 64) & 0xFF) as u8, ((cs_id - 64) >> 8) as u8]
    }
}

fn u24(n: u32) -> [u8; 3] {
    [(n >> 16) as u8, (n >> 8) as u8, n as u8]
}

fn ts_field(v: u32) -> [u8; 3] {
    u24(v.min(0xFF_FFFF))
}

fn ts_ext(v: u32) -> Vec<u8> {
    if v >= 0xFF_FFFF {
        v.to_be_bytes().to_vec()
    } else {
        Vec::new()
    }
}

fn header0(ts: u32, len: u32, ty: u8, msid: u32) -> Vec<u8> {
    let mut h = ts_field(ts).to_vec();
    h.extend_from_slice(&u24(len));
    h.push(ty);
    h.extend_from_slice(&msid.to_le_bytes());
    h.extend_from_slice(&ts_ext(ts));
    h
}

fn header1(delta: u32, len: u32, ty: u8) -> Vec<u8> {
    let mut h = ts_field(delta).to_vec();
    h.extend_from_slice(&u24(len));
    h.push(ty);
    h.extend_from_slice(&ts_ext(delta));
    h
}

fn header2(delta: u32) -> Vec<u8> {
    let mut h = ts_field(delta).to_vec();
    h.extend_from_slice(&ts_ext(delta));
    h
}

fn chunk(fmt: u8, cs_id: u32, header: &[u8], body: &[u8]) -> Vec<u8> {
    let mut c = basic(fmt, cs_id);
    c.extend_from_slice(header);
    c.extend_from_slice(body);
    c
}

fn take(d: &mut ChunkDemux, input: &[u8]) -> (usize, Option<RtmpMessage>) {
    match d.read_chunk(input).expect("sound framing") {
        ChunkRead::Taken { used, message } => (used, message),
        ChunkRead::NeedMore => panic!("a whole chunk was given"),
    }
}

fn needs_more(d: &mut ChunkDemux, input: &[u8]) -> bool {
    matches!(d.read_chunk(input), Ok(ChunkRead::NeedMore))
}

fn run(d: &mut ChunkDemux, input: &[u8]) -> Vec<RtmpMessage> {
    let mut pos = 0;
    let mut out = Vec::new();
    while pos < input.len() {
        let (used, message) = take(d, &input[pos..]);
        pos += used;
        if let Some(m) = message {
            out.push(m);
        }
    }
    assert_eq!(pos, input.len());
    out
}

fn payload(len: usize, seed: u8) -> Vec<u8> {
    (0..len).map(|i| (i as u8).wrapping_mul(31).wrapping_add(seed)).collect()
}

#[test]
fn default_chunk_size_is_128() {
    assert_eq!(ChunkDemux::new().chunk_size(), 128);
    assert_eq!(vyuber::chunk::DEFAULT_CHUNK_SIZE, 128);
}

#[test]
fn one_format_zero_chunk_is_one_message() {
    let mut d = ChunkDemux::new();
    let body = payload(10, 1);
    let input = chunk(0, 3, &header0(1000, 10, 20, 0x0403_0201), &body);
    let (used, message) = take(&mut d, &input);
    assert_eq!(used, input.len());
    let m = message.expect("a message");
    assert_eq!(m.chunk_stream_id, 3);
    assert_eq!(m.message_type, 20);
    assert_eq!(m.message_stream_id, 0x0403_0201);
    assert_eq!(m.timestamp, 1000);
    assert_eq!(&m.payload[..], &body[..]);
}

#[test]
fn message_stream_id_is_little_endian() {
    let mut d = ChunkDemux::new();
    let mut input = basic(0, 4);
    input.extend_from_slice(&[0, 0, 5, 0, 0, 1, 9, 0x01, 0x00, 0x00, 0x00, 0xAB]);
    let (_, message) = take(&mut d, &input);
    let m = message.expect("a message");
    assert_eq!(m.message_stream_id, 1);
    assert_eq!(m.timestamp, 5);
    assert_eq!(m.message_type, 9);
    assert_eq!(&m.payload[..], &[0xAB]);
}

#[test]
fn empty_message_is_handed_out_at_once() {
    let mut d = ChunkDemux::new();
    let input = chunk(0, 2, &header0(0, 0, 4, 0), &[]);
    let (used, message) = take(&mut d, &input);
    assert_eq!(used, 12);
    assert_eq!(message.expect("a message").payload.len(), 0);
}

#[test]
fn every_proper_prefix_of_a_chunk_needs_more() {
    let body = payload(40, 3);
    let input = chunk(0, 70, &header0(0x0100_0000, 40, 9, 1), &body);
    for k in 0..input.len() {
        let mut d = ChunkDemux::new();
        assert!(needs_more(&mut d, &input[..k]), "prefix of {k} bytes");
        // Nothing was taken: the whole chunk still reads from a clean start.
        let (used, message) = take(&mut d, &input);
        assert_eq!(used, input.len());
        assert_eq!(&message.expect("a message").payload[..], &body[..]);
    }
}

#[test]
fn long_message_is_reassembled_from_continuation_chunks() {
    let mut d = ChunkDemux::new();
    let body = payload(300, 9);
    let mut input = chunk(0, 5, &header0(77, 300, 9, 1), &body[..128]);
    input.extend(chunk(3, 5, &[], &body[128..256]));
    input.extend(chunk(3, 5, &[], &body[256..]));
    let (used, message) = take(&mut d, &input);
    assert_eq!(used, 12 + 128);
    assert!(message.is_none());
    let (used2, message) = take(&mut d, &input[used..]);
    assert_eq!(used2, 1 + 128);
    assert!(message.is_none());
    let (used3, message) = take(&mut d, &input[used + used2..]);
    assert_eq!(used3, 1 + 44);
    let m = message.expect("a message");
    assert_eq!(&m.payload[..], &body[..]);
    assert_eq!(m.timestamp, 77);
}

#[test]
fn two_and_three_byte_chunk_stream_ids() {
    for cs_id in [64u32, 65, 319, 320, 1000, 65599] {
        let mut d = ChunkDemux::new();
        let input = chunk(0, cs_id, &header0(1, 2, 8, 1), &[7, 8]);
        let (used, message) = take(&mut d, &input);
        assert_eq!(used, input.len());
        assert_eq!(message.expect("a message").chunk_stream_id, cs_id);
    }
    // The three-byte form also spells small ids: 64 + 0 + 256 * 0.
    let mut d = ChunkDemux::new();
    let mut input = vec![0x01, 0x00, 0x00];
    input.extend(header0(1, 1, 8, 1));
    input.push(0x33);
    assert_eq!(take(&mut d, &input).1.expect("a message").chunk_stream_id, 64);
    // The two-byte id is offset by 64.
    let mut d = ChunkDemux::new();
    let mut input = vec![0x00, 0xFF];
    input.extend(header0(1, 1, 8, 1));
    input.push(0x33);
    assert_eq!(take(&mut d, &input).1.expect("a message").chunk_stream_id, 319);
    // The three-byte id is little-endian.
    let mut d = ChunkDemux::new();
    let mut input = vec![0x01, 0x02, 0x01];
    input.extend(header0(1, 1, 8, 1));
    input.push(0x33);
    assert_eq!(take(&mut d, &input).1.expect("a message").chunk_stream_id, 64 + 2 + 256);
}

#[test]
fn format_one_adds_a_delta_and_inherits_the_stream_id() {
    let mut d = ChunkDemux::new();
    let mut input = chunk(0, 6, &header0(1000, 2, 8, 0x11), &[1, 2]);
    input.extend(chunk(1, 6, &header1(40, 3, 9), &[3, 4, 5]));
    let got = run(&mut d, &input);
    assert_eq!(got.len(), 2);
    assert_eq!(got[1].timestamp, 1040);
    assert_eq!(got[1].message_type, 9);
    assert_eq!(got[1].message_stream_id, 0x11);
    assert_eq!(&got[1].payload[..], &[3, 4, 5]);
}

#[test]
fn format_two_adds_a_delta_and_inherits_length_and_type() {
    let mut d = ChunkDemux::new();
    let mut input = chunk(0, 6, &header0(1000, 2, 8, 0x11), &[1, 2]);
    input.extend(chunk(2, 6, &header2(25), &[8, 9]));
    let got = run(&mut d, &input);
    assert_eq!(got.len(), 2);
    assert_eq!(got[1].timestamp, 1025);
    assert_eq!(got[1].message_type, 8);
    assert_eq!(got[1].message_stream_id, 0x11);
    assert_eq!(&got[1].payload[..], &[8, 9]);
}

#[test]
fn format_three_between_messages_applies_the_last_delta_again() {
    let mut d = ChunkDemux::new();
    let mut input = chunk(0, 6, &header0(1000, 2, 8, 0x11), &[1, 2]);
    input.extend(chunk(1, 6, &header1(40, 2, 8), &[3, 4]));
    input.extend(chunk(3, 6, &[], &[5, 6]));
    input.extend(chunk(3, 6, &[], &[7, 8]));
    let got = run(&mut d, &input);
    assert_eq!(got.len(), 4);
    assert_eq!(
        got.iter().map(|m| m.timestamp).collect::<Vec<_>>(),
        vec![1000, 1040, 1080, 1120]
    );
    assert_eq!(&got[3].payload[..], &[7, 8]);
}

#[test]
fn format_three_right_after_format_zero_keeps_the_timestamp() {
    let mut d = ChunkDemux::new();
    let mut input = chunk(0, 6, &header0(1000, 1, 8, 1), &[1]);
    input.extend(chunk(3, 6, &[], &[2]));
    let got = run(&mut d, &input);
    assert_eq!(got[1].timestamp, 1000);
}

#[test]
fn timestamps_wrap_modulo_two_to_the_32() {
    let mut d = ChunkDemux::new();
    let mut input = chunk(0, 6, &header0(0xFFFF_FFF0, 1, 8, 1), &[1]);
    input.extend(chunk(2, 6, &header2(0x20), &[2]));
    let got = run(&mut d, &input);
    assert_eq!(got[0].timestamp, 0xFFFF_FFF0);
    assert_eq!(got[1].timestamp, 0x10);
}

#[test]
fn extended_timestamp_on_format_zero() {
    let mut d = ChunkDemux::new();
    let h = header0(0x0123_4567, 3, 9, 1);
    assert_eq!(h.len(), 15);
    assert_eq!(&h[..3], &[0xFF, 0xFF, 0xFF]);
    let input = chunk(0, 4, &h, &[1, 2, 3]);
    let (used, message) = take(&mut d, &input);
    assert_eq!(used, 1 + 15 + 3);
    assert_eq!(message.expect("a message").timestamp, 0x0123_4567);
}

#[test]
fn timestamp_of_exactly_ffffff_uses_the_extended_field() {
    let mut d = ChunkDemux::new();
    let input = chunk(0, 4, &header0(0xFF_FFFF, 1, 9, 1), &[1]);
    assert_eq!(input.len(), 1 + 15 + 1);
    assert_eq!(take(&mut d, &input).1.expect("a message").timestamp, 0xFF_FFFF);
}

#[test]
fn extended_delta_on_formats_one_and_two() {
    let mut d = ChunkDemux::new();
    let mut input = chunk(0, 4, &header0(10, 1, 9, 1), &[1]);
    input.extend(chunk(1, 4, &header1(0x0100_0000, 1, 9), &[2]));
    input.extend(chunk(2, 4, &header2(0x0200_0000), &[3]));
    let got = run(&mut d, &input);
    assert_eq!(got[1].timestamp, 0x0100_000A);
    assert_eq!(got[2].timestamp, 0x0300_000A);
}

#[test]
fn continuation_chunk_carries_the_sticky_extended_timestamp() {
    let mut d = ChunkDemux::new();
    let ts = 0x0100_0000u32;
    let body = payload(200, 5);
    let mut input = chunk(0, 4, &header0(ts, 200, 9, 1), &body[..128]);
    input.extend(chunk(3, 4, &ts.to_be_bytes(), &body[128..]));
    let got = run(&mut d, &input);
    assert_eq!(got.len(), 1);
    assert_eq!(got[0].timestamp, ts);
    assert_eq!(&got[0].payload[..], &body[..]);
}

#[test]
fn continuation_chunk_without_the_sticky_field_is_refused() {
    let mut d = ChunkDemux::new();
    let ts = 0x0100_0000u32;
    let body = payload(200, 5);
    let first = chunk(0, 4, &header0(ts, 200, 9, 1), &body[..128]);
    let (_, message) = take(&mut d, &first);
    assert!(message.is_none());
    let bare = chunk(3, 4, &[], &body[128..]);
    assert_eq!(
        d.read_chunk(&bare).err(),
        Some(ProtocolError::ExtendedTimestampMismatch)
    );
}

#[test]
fn sticky_field_is_refused_after_formats_one_and_two_as_well() {
    for fmt in [1u8, 2] {
        let mut d = ChunkDemux::new();
        let body = payload(200, 6);
        let mut input = chunk(0, 4, &header0(5, 200, 9, 1), &body[..128]);
        input.extend(chunk(3, 4, &[], &body[128..]));
        assert_eq!(run(&mut d, &input).len(), 1);
        let delta = 0x0100_0002u32;
        let head = if fmt == 1 { header1(delta, 200, 9) } else { header2(delta) };
        let first = chunk(fmt, 4, &head, &body[..128]);
        assert!(take(&mut d, &first).1.is_none());
        let bare = chunk(3, 4, &[], &body[128..]);
        assert_eq!(
            d.read_chunk(&bare).err(),
            Some(ProtocolError::ExtendedTimestampMismatch)
        );
        let full = chunk(3, 4, &delta.to_be_bytes(), &body[128..]);
        let m = take(&mut d, &full).1.expect("a message");
        assert_eq!(m.timestamp, 5u32.wrapping_add(delta));
        assert_eq!(&m.payload[..], &body[..]);
    }
}

#[test]
fn sticky_field_is_needed_before_the_chunk_can_be_read() {
    let mut d = ChunkDemux::new();
    let ts = 0x0100_0000u32;
    let body = payload(130, 5);
    let first = chunk(0, 4, &header0(ts, 130, 9, 1), &body[..128]);
    take(&mut d, &first);
    // Basic header and three bytes: the four-byte field is not there yet.
    assert!(needs_more(&mut d, &[0xC4, 0x01, 0x00, 0x00]));
    let mut rest = vec![0xC4];
    rest.extend_from_slice(&ts.to_be_bytes());
    rest.push(body[128]);
    assert!(needs_more(&mut d, &rest));
    rest.push(body[129]);
    assert!(take(&mut d, &rest).1.is_some());
}

#[test]
fn format_three_between_messages_adds_the_extended_field() {
    let mut d = ChunkDemux::new();
    let ts = 0x0100_0000u32;
    let mut input = chunk(0, 4, &header0(ts, 1, 9, 1), &[1]);
    input.extend(chunk(3, 4, &0x0000_0010u32.to_be_bytes(), &[2]));
    let got = run(&mut d, &input);
    assert_eq!(got[1].timestamp, ts + 0x10);
}

#[test]
fn chunk_without_prior_header_is_refused() {
    for fmt in [1u8, 2, 3] {
        let mut d = ChunkDemux::new();
        let input = chunk(fmt, 9, &[0, 0, 1, 0, 0, 1, 8], &[1]);
        assert_eq!(d.read_chunk(&input).err(), Some(ProtocolError::MissingHeader));
    }
    // A header on one chunk stream does not vouch for another.
    let mut d = ChunkDemux::new();
    take(&mut d, &chunk(0, 9, &header0(0, 1, 8, 1), &[1]));
    assert_eq!(
        d.read_chunk(&chunk(3, 10, &[], &[1])).err(),
        Some(ProtocolError::MissingHeader)
    );
}

#[test]
fn zero_chunk_size_is_refused() {
    let mut d = ChunkDemux::new();
    assert_eq!(d.set_chunk_size(0), Err(ProtocolError::ZeroChunkSize));
    assert_eq!(d.chunk_size(), 128);
    assert_eq!(d.set_chunk_size(1), Ok(()));
    assert_eq!(d.chunk_size(), 1);
}

#[test]
fn new_chunk_size_applies_to_the_chunks_that_follow() {
    let mut d = ChunkDemux::new();
    let first = payload(200, 1);
    let mut input = chunk(0, 4, &header0(0, 200, 9, 1), &first[..128]);
    input.extend(chunk(3, 4, &[], &first[128..]));
    let got = run(&mut d, &input);
    assert_eq!(&got[0].payload[..], &first[..]);
    assert_eq!(d.set_chunk_size(60000), Ok(()));
    let second = payload(70000, 2);
    let mut input = chunk(0, 4, &header0(40, 70000, 9, 1), &second[..60000]);
    input.extend(chunk(3, 4, &[], &second[60000..]));
    let got = run(&mut d, &input);
    assert_eq!(got.len(), 1);
    assert_eq!(&got[0].payload[..], &second[..]);
}

#[test]
fn chunk_size_change_within_a_message_loses_nothing() {
    let mut d = ChunkDemux::new();
    let body = payload(1000, 4);
    let first = chunk(0, 4, &header0(0, 1000, 9, 1), &body[..128]);
    assert!(take(&mut d, &first).1.is_none());
    assert_eq!(d.set_chunk_size(500), Ok(()));
    let second = chunk(3, 4, &[], &body[128..628]);
    assert!(take(&mut d, &second).1.is_none());
    let third = chunk(3, 4, &[], &body[628..]);
    let m = take(&mut d, &third).1.expect("a message");
    assert_eq!(&m.payload[..], &body[..]);
}

#[test]
fn a_new_header_within_a_message_starts_over() {
    let mut d = ChunkDemux::new();
    let body = payload(200, 4);
    let first = chunk(0, 4, &header0(0, 200, 9, 1), &body[..128]);
    assert!(take(&mut d, &first).1.is_none());
    let again = chunk(1, 4, &header1(3, 2, 8), &[0xA1, 0xA2]);
    let m = take(&mut d, &again).1.expect("a message");
    assert_eq!(&m.payload[..], &[0xA1, 0xA2]);
    assert_eq!(m.timestamp, 3);
    assert_eq!(m.message_type, 8);
}

#[test]
fn messages_do_not_run_into_each_other() {
    let mut d = ChunkDemux::new();
    let mut input = chunk(0, 4, &header0(0, 3, 9, 1), &[1, 2, 3]);
    input.extend(chunk(3, 4, &[], &[4, 5, 6]));
    let got = run(&mut d, &input);
    assert_eq!(&got[0].payload[..], &[1, 2, 3]);
    assert_eq!(&got[1].payload[..], &[4, 5, 6]);
}

#[test]
fn interleaved_chunk_streams_are_kept_apart() {
    let mut d = ChunkDemux::new();
    let a = payload(300, 1);
    let b = payload(200, 2);
    let mut input = chunk(0, 4, &header0(10, 300, 9, 1), &a[..128]);
    input.extend(chunk(0, 5, &header0(20, 200, 8, 1), &b[..128]));
    input.extend(chunk(3, 4, &[], &a[128..256]));
    input.extend(chunk(3, 5, &[], &b[128..]));
    input.extend(chunk(3, 4, &[], &a[256..]));
    let got = run(&mut d, &input);
    assert_eq!(got.len(), 2);
    assert_eq!((got[0].chunk_stream_id, got[0].timestamp), (5, 20));
    assert_eq!(&got[0].payload[..], &b[..]);
    assert_eq!((got[1].chunk_stream_id, got[1].timestamp), (4, 10));
    assert_eq!(&got[1].payload[..], &a[..]);
}

struct Lcg(u64);

impl Lcg {
    fn next(&mut self) -> u64 {
        self.0 = self.0.wrapping_mul(6364136223846793005).wrapping_add(1442695040888963407);
        self.0 >> 33
    }

    fn below(&mut self, n: u64) -> u64 {
        self.next() % n
    }
}

#[derive(Clone, Copy, Default)]
struct Sent {
    known: bool,
    timestamp: u32,
    length: u32,
    ty: u8,
    msid: u32,
    last_delta: u32,
    extended: bool,
}

struct Pending {
    cs_id: u32,
    body: Vec<u8>,
    at: usize,
    ext: Vec<u8>,
    expect: (u32, u8, u32, u32),
}

#[test]
fn random_interleavings_are_reassembled() {
    for seed in 0..40u64 {
        let mut rng = Lcg(seed * 7919 + 1);
        let size = 128 + rng.below(400) as usize;
        let mut d = ChunkDemux::new();
        assert_eq!(d.set_chunk_size(size as u32), Ok(()));
        let ids = [3u32, 4, 64, 400];
        let mut sent = [Sent::default(); 4];
        let mut open: Vec<Option<Pending>> = vec![None, None, None, None];
        let mut wire = Vec::new();
        let mut expected: Vec<(u32, u8, u32, u32, Vec<u8>)> = Vec::new();
        let mut started = 0;
        while started < 30 || open.iter().any(|p| p.is_some()) {
            let k = rng.below(4) as usize;
            if open[k].is_none() {
                if started >= 30 {
                    continue;
                }
                started += 1;
                let prev = sent[k];
                let len = match rng.below(4) {
                    0 => 0,
                    1 => rng.below(size as u64) as u32,
                    2 => size as u32,
                    _ => rng.below(3 * size as u64) as u32,
                };
                let ty = [8u8, 9, 18, 20][rng.below(4) as usize];
                let delta = match rng.below(4) {
                    0 => 0,
                    1 => rng.below(100) as u32,
                    2 => 0xFF_FFFF,
                    _ => 0x0100_0000 + rng.below(1000) as u32,
                };
                let mut fmt = rng.below(4) as u8;
                if !prev.known {
                    fmt = 0;
                }
                let (head, now) = match fmt {
                    0 => {
                        let ts = delta.wrapping_mul(3);
                        let msid = 1 + rng.below(3) as u32;
                        (
                            header0(ts, len, ty, msid),
                            Sent {
                                known: true,
                                timestamp: ts,
                                length: len,
                                ty,
                                msid,
                                last_delta: 0,
                                extended: ts >= 0xFF_FFFF,
                            },
                        )
                    }
                    1 => (
                        header1(delta, len, ty),
                        Sent {
                            timestamp: prev.timestamp.wrapping_add(delta),
                            length: len,
                            ty,
                            last_delta: delta,
                            extended: delta >= 0xFF_FFFF,
                            ..prev
                        },
                    ),
                    2 => (
                        header2(delta),
                        Sent {
                            timestamp: prev.timestamp.wrapping_add(delta),
                            last_delta: delta,
                            extended: delta >= 0xFF_FFFF,
                            ..prev
                        },
                    ),
                    _ => {
                        if prev.extended {
                            (
                                delta.to_be_bytes().to_vec(),
                                Sent { timestamp: prev.timestamp.wrapping_add(delta), ..prev },
                            )
                        } else {
                            (
                                Vec::new(),
                                Sent {
                                    timestamp: prev.timestamp.wrapping_add(prev.last_delta),
                                    ..prev
                                },
                            )
                        }
                    }
                };
                sent[k] = now;
                let body = payload(now.length as usize, rng.below(256) as u8);
                let n = body.len().min(size);
                wire.extend(chunk(fmt, ids[k], &head, &body[..n]));
                let ext = if now.extended {
                    head[head.len() - 4..].to_vec()
                } else {
                    Vec::new()
                };
                let expect = (ids[k], now.ty, now.msid, now.timestamp);
                if n == body.len() {
                    expected.push((expect.0, expect.1, expect.2, expect.3, body));
                } else {
                    open[k] = Some(Pending { cs_id: ids[k], body, at: n, ext, expect });
                }
            } else {
                let mut p = open[k].take().expect("open");
                let n = (p.body.len() - p.at).min(size);
                wire.extend(chunk(3, p.cs_id, &p.ext, &p.body[p.at..p.at + n]));
                p.at += n;
                if p.at == p.body.len() {
                    expected.push((p.expect.0, p.expect.1, p.expect.2, p.expect.3, p.body));
                } else {
                    open[k] = Some(p);
                }
            }
        }
        let got = run(&mut d, &wire);
        assert_eq!(got.len(), expected.len(), "seed {seed}");
        for (m, e) in got.iter().zip(expected.iter()) {
            assert_eq!(
                (m.chunk_stream_id, m.message_type, m.message_stream_id, m.timestamp),
                (e.0, e.1, e.2, e.3),
                "seed {seed}"
            );
            assert_eq!(&m.payload[..], &e.4[..], "seed {seed}");
        }
    }
}
