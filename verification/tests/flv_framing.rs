use bytes::Bytes;
use vyuber::flv::{flv_file_header, flv_tag, parse_flv_tag};

#[test]
fn header_is_the_thirteen_byte_literal() {
    let hdr: Bytes = flv_file_header();
    assert_eq!(
        &hdr[..],
        &[0x46, 0x4C, 0x56, 0x01, 0x05, 0x00, 0x00, 0x00, 0x09, 0x00, 0x00, 0x00, 0x00]
    );
}

#[test]
fn tag_layout_is_bit_exact() {
    let tag = flv_tag(9, 0x0102_0304, &[0x17, 0x01, 0xAA]);
    assert_eq!(
        &tag[..],
        &[9, 0, 0, 3, 0x02, 0x03, 0x04, 0x01, 0, 0, 0, 0x17, 0x01, 0xAA, 0, 0, 0, 14]
    );
}

#[test]
fn tag_with_empty_payload() {
    let tag = flv_tag(18, 0, &[]);
    assert_eq!(&tag[..], &[18, 0, 0, 0, 0, 0, 0, 0, 0, 0, 0, 0, 0, 0, 11]);
}

#[test]
fn tag_length_uses_three_bytes() {
    let payload = vec![0x5Au8; 0x01_02_03];
    let tag = flv_tag(8, 7, &payload);
    assert_eq!(tag.len(), 0x01_02_03 + 15);
    assert_eq!(&tag[1..4], &[0x01, 0x02, 0x03]);
    assert_eq!(&tag[tag.len() - 4..], &(0x01_02_03u32 + 11).to_be_bytes());
}

#[test]
fn tag_reads_back() {
    let payload = vec![1u8, 2, 3, 4, 5];
    let tag = flv_tag(8, 0xFEDC_BA98, &payload);
    let (back, used) = parse_flv_tag(&tag).expect("a whole tag");
    assert_eq!(used, tag.len());
    assert_eq!(back.tag_type, 8);
    assert_eq!(back.timestamp, 0xFEDC_BA98);
    assert_eq!(back.payload, payload);
    assert_eq!(&tag[tag.len() - 4..], &(11u32 + 5).to_be_bytes());
}

#[test]
fn tag_reads_back_for_many_inputs() {
    for tag_type in [8u8, 9, 18] {
        for ts in [0u32, 1, 0x00FF_FFFF, 0x0100_0000, 0xFFFF_FFFF] {
            for len in [0usize, 1, 2, 255, 256, 70000] {
                let payload: Vec<u8> = (0..len).map(|i| (i * 7 + 3) as u8).collect();
                let tag = flv_tag(tag_type, ts, &payload);
                let mut more = tag.to_vec();
                more.extend_from_slice(&[9, 9, 9]);
                let (back, used) = parse_flv_tag(&more).expect("a whole tag");
                assert_eq!(used, payload.len() + 15);
                assert_eq!((back.tag_type, back.timestamp), (tag_type, ts));
                assert_eq!(back.payload, payload);
            }
        }
    }
}

#[test]
fn parse_refuses_short_and_damaged_tags() {
    let tag = flv_tag(9, 5, &[1, 2, 3]).to_vec();
    assert!(parse_flv_tag(&tag[..tag.len() - 1]).is_none());
    assert!(parse_flv_tag(&[]).is_none());
    let mut bad_stream_id = tag.clone();
    bad_stream_id[9] = 1;
    assert!(parse_flv_tag(&bad_stream_id).is_none());
    let mut bad_trailer = tag.clone();
    let last = bad_trailer.len() - 1;
    bad_trailer[last] ^= 1;
    assert!(parse_flv_tag(&bad_trailer).is_none());
}
