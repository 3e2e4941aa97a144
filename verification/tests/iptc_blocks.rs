//! Tests for the 8BIM / IPTC-IIM decoders.

use tag2dir::iptc::{parse_iptc_from_photoshop, parse_iptc_records};

/// One IPTC-IIM record: marker, record number, dataset number, length,
/// payload.
fn iptc_record(record: u8, dataset: u8, payload: &[u8]) -> Vec<u8> {
    let mut r = vec![0x1C, record, dataset];
    let len = payload.len() as u16;
    r.push((len >> 8) as u8);
    r.push((len & 0xFF) as u8);
    r.extend_from_slice(payload);
    r
}

/// One 8BIM resource block with an empty name and the given payload.
fn bim_block(resource_id: u16, payload: &[u8]) -> Vec<u8> {
    let mut b = Vec::new();
    b.extend_from_slice(b"8BIM");
    b.push((resource_id >> 8) as u8);
    b.push((resource_id & 0xFF) as u8);
    b.push(0); // name length
    b.push(0); // pad to even
    let size = payload.len() as u32;
    b.push((size >> 24) as u8);
    b.push((size >> 16) as u8);
    b.push((size >> 8) as u8);
    b.push((size & 0xFF) as u8);
    b.extend_from_slice(payload);
    if b.len() % 2 != 0 {
        b.push(0);
    }
    b
}

#[test]
fn keywords_record_round_trip() {
    let payload = iptc_record(2, 25, b"Carol");
    let stream = bim_block(0x0404, &payload);
    let mut keywords: Vec<String> = Vec::new();
    parse_iptc_from_photoshop(&stream, &mut keywords);
    assert_eq!(keywords, vec!["Carol".to_string()]);
}

#[test]
fn two_keywords_datasets() {
    let mut payload = iptc_record(2, 25, b"Carol");
    payload.extend_from_slice(&iptc_record(2, 25, b"Dave"));
    let stream = bim_block(0x0404, &payload);
    let mut keywords: Vec<String> = Vec::new();
    parse_iptc_from_photoshop(&stream, &mut keywords);
    assert_eq!(keywords, vec!["Carol".to_string(), "Dave".to_string()]);
}

#[test]
fn non_keyword_datasets_are_skipped() {
    let mut payload = iptc_record(2, 5, b"Title");
    payload.extend_from_slice(&iptc_record(2, 25, b"  Carol  "));
    payload.extend_from_slice(&iptc_record(3, 25, b"NotKeywords"));
    let stream = bim_block(0x0404, &payload);
    let mut keywords: Vec<String> = Vec::new();
    parse_iptc_from_photoshop(&stream, &mut keywords);
    assert_eq!(keywords, vec!["Carol".to_string()]);
}

#[test]
fn other_resources_are_skipped() {
    let payload = iptc_record(2, 25, b"Hidden");
    let stream = bim_block(0x0400, &payload);
    let mut keywords: Vec<String> = Vec::new();
    parse_iptc_from_photoshop(&stream, &mut keywords);
    assert!(keywords.is_empty());
}

#[test]
fn oversized_block_stops_scan_after_earlier_blocks() {
    let payload = iptc_record(2, 25, b"Carol");
    let mut stream = bim_block(0x0404, &payload);
    // A second block whose size field points far past the buffer.
    stream.extend_from_slice(b"8BIM");
    stream.extend_from_slice(&[0x04, 0x04, 0, 0]);
    stream.extend_from_slice(&[0xFF, 0xFF, 0xFF, 0xFF]);
    stream.extend_from_slice(b"short");
    let mut keywords: Vec<String> = Vec::new();
    parse_iptc_from_photoshop(&stream, &mut keywords);
    assert_eq!(keywords, vec!["Carol".to_string()]);
}

#[test]
fn truncated_record_length_stops_scan() {
    let mut data = iptc_record(2, 25, b"Good");
    // A record claiming more payload than remains.
    data.extend_from_slice(&[0x1C, 2, 25, 0xFF, 0xFF, b'x']);
    let mut keywords: Vec<String> = Vec::new();
    parse_iptc_records(&data, &mut keywords);
    assert_eq!(keywords, vec!["Good".to_string()]);
}

#[test]
fn latin1_fallback_for_invalid_utf8() {
    // 0xE9 alone is not valid UTF-8; the Latin-1 fallback reads it as 'é'.
    let data = iptc_record(2, 25, &[0x5A, 0x6F, 0xE9]);
    let mut keywords: Vec<String> = Vec::new();
    parse_iptc_records(&data, &mut keywords);
    assert_eq!(keywords, vec!["Zo\u{e9}".to_string()]);
}

#[test]
fn utf8_payload_decoded_as_utf8() {
    // The UTF-8 encoding of "Zoé"; a byte-per-byte reading would differ.
    let data = iptc_record(2, 25, &[0x5A, 0x6F, 0xC3, 0xA9]);
    let mut keywords: Vec<String> = Vec::new();
    parse_iptc_records(&data, &mut keywords);
    assert_eq!(keywords, vec!["Zo\u{e9}".to_string()]);
}

#[test]
fn whitespace_only_payload_is_dropped() {
    let data = iptc_record(2, 25, b"   ");
    let mut keywords: Vec<String> = Vec::new();
    parse_iptc_records(&data, &mut keywords);
    assert!(keywords.is_empty());
}
