//! Tests for segment location: byte search and XMP packet extraction.

use tag2dir::locate::{extract_xmp_from_bytes, find_subsequence};

#[test]
fn test_extract_xmp_from_bytes() {
    let xml = r#"some prefix <x:xmpmeta xmlns:x="adobe:ns:meta/">
            <rdf:RDF>
                <rdf:Description>
                    <dc:subject>
                        <rdf:Bag>
                            <rdf:li>Alice</rdf:li>
                            <rdf:li>Bob</rdf:li>
                        </rdf:Bag>
                    </dc:subject>
                </rdf:Description>
            </rdf:RDF>
        </x:xmpmeta> some suffix"#;

    let result = extract_xmp_from_bytes(xml.as_bytes());
    assert!(result.is_some());
    let xmp = result.unwrap();
    assert!(xmp.contains("Alice"));
    assert!(xmp.contains("Bob"));
}

#[test]
fn find_subsequence_first_occurrence() {
    let hay = b"abcabcabc";
    assert_eq!(find_subsequence(hay, b"abc"), Some(0));
    assert_eq!(find_subsequence(hay, b"cab"), Some(2));
    assert_eq!(find_subsequence(hay, b"bcb"), None);
    assert_eq!(find_subsequence(b"", b"a"), None);
}

#[test]
fn xmp_chunk_spans_start_to_end_marker() {
    let data = b"junk<x:xmpmeta a=\"1\">inner</x:xmpmeta>junk";
    let xmp = extract_xmp_from_bytes(data).unwrap();
    assert_eq!(xmp, "<x:xmpmeta a=\"1\">inner</x:xmpmeta>");
}

#[test]
fn xmp_xpacket_pair_used_when_meta_absent() {
    let data = b"pre <?xpacket begin stuff <?xpacket end post";
    let xmp = extract_xmp_from_bytes(data).unwrap();
    assert_eq!(xmp, "<?xpacket begin stuff <?xpacket end");
}

#[test]
fn xmp_xpacket_narrows_to_nested_meta() {
    // The first marker pair also matches here, and narrowing keeps the
    // nested element exactly.
    let data = b"<?xpacket begin='x'?><x:xmpmeta>v</x:xmpmeta><?xpacket end='w'?>";
    let xmp = extract_xmp_from_bytes(data).unwrap();
    assert_eq!(xmp, "<x:xmpmeta>v</x:xmpmeta>");
}

#[test]
fn xmp_absent_yields_none() {
    assert!(extract_xmp_from_bytes(b"no markers here at all").is_none());
    assert!(extract_xmp_from_bytes(b"").is_none());
    // A start marker without its end marker does not make a chunk.
    assert!(extract_xmp_from_bytes(b"<x:xmpmeta unterminated").is_none());
}

#[test]
fn xmp_survives_invalid_utf8_around_markers() {
    let mut data: Vec<u8> = vec![0xFF, 0xFE, 0x80];
    data.extend_from_slice(b"<x:xmpmeta>ok</x:xmpmeta>");
    data.push(0xFF);
    let xmp = extract_xmp_from_bytes(&data).unwrap();
    assert_eq!(xmp, "<x:xmpmeta>ok</x:xmpmeta>");
}
