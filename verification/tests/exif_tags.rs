//! Tests for the EXIF XPKeywords decoder, on a hand-built little-endian
//! TIFF holding one byte-array tag.

use tag2dir::exif::read_exif_keywords;

/// A minimal little-endian TIFF whose sole IFD entry is the XPKeywords
/// tag (0x9C9E) as a BYTE array with the given value.
fn tiff_with_xp_keywords(value: &[u8]) -> Vec<u8> {
    let mut t = Vec::new();
    t.extend_from_slice(b"II");
    t.extend_from_slice(&[42, 0]); // TIFF magic
    t.extend_from_slice(&8u32.to_le_bytes()); // IFD offset
    t.extend_from_slice(&1u16.to_le_bytes()); // entry count
    t.extend_from_slice(&0x9C9Eu16.to_le_bytes()); // tag
    t.extend_from_slice(&1u16.to_le_bytes()); // type BYTE
    t.extend_from_slice(&(value.len() as u32).to_le_bytes()); // count
    let value_offset = 8 + 2 + 12 + 4;
    t.extend_from_slice(&(value_offset as u32).to_le_bytes());
    t.extend_from_slice(&0u32.to_le_bytes()); // no next IFD
    t.extend_from_slice(value);
    t
}

/// UTF-16LE bytes of a string.
fn utf16le(s: &str) -> Vec<u8> {
    let mut b = Vec::new();
    for unit in s.encode_utf16() {
        b.extend_from_slice(&unit.to_le_bytes());
    }
    b
}

#[test]
fn xp_keywords_utf16_semicolon_list() {
    let tiff = tiff_with_xp_keywords(&utf16le("Eve;Frank\0"));
    let keywords = read_exif_keywords(&tiff);
    assert_eq!(keywords, vec!["Eve".to_string(), "Frank".to_string()]);
}

#[test]
fn xp_keywords_segments_are_trimmed_and_empties_dropped() {
    let tiff = tiff_with_xp_keywords(&utf16le(" Eve ; ;Frank\0\0"));
    let keywords = read_exif_keywords(&tiff);
    assert_eq!(keywords, vec!["Eve".to_string(), "Frank".to_string()]);
}

#[test]
fn missing_exif_container_yields_nothing() {
    assert!(read_exif_keywords(b"not an image at all").is_empty());
    assert!(read_exif_keywords(b"").is_empty());
}

#[test]
fn truncated_tiff_yields_nothing() {
    let tiff = tiff_with_xp_keywords(&utf16le("Eve\0"));
    let cut = &tiff[..10];
    assert!(read_exif_keywords(cut).is_empty());
}
