//! End-to-end tests: raw file bytes through `extract_person_tags`.

use tag2dir::metadata::extract_person_tags;

fn iptc_record(record: u8, dataset: u8, payload: &[u8]) -> Vec<u8> {
    let mut r = vec![0x1C, record, dataset];
    let len = payload.len() as u16;
    r.push((len >> 8) as u8);
    r.push((len & 0xFF) as u8);
    r.extend_from_slice(payload);
    r
}

fn photoshop_stream_with_keywords(words: &[&str]) -> Vec<u8> {
    let mut payload = Vec::new();
    for w in words {
        payload.extend_from_slice(&iptc_record(2, 25, w.as_bytes()));
    }
    let mut d = Vec::new();
    d.extend_from_slice(b"Photoshop 3.0\0");
    d.extend_from_slice(b"8BIM");
    d.extend_from_slice(&[0x04, 0x04, 0, 0]);
    d.extend_from_slice(&(payload.len() as u32).to_be_bytes());
    d.extend_from_slice(&payload);
    d
}

#[test]
fn no_metadata_yields_two_empty_lists() {
    let (persons, keywords) = extract_person_tags(b"just some plain bytes, nothing embedded");
    assert!(persons.is_empty());
    assert!(keywords.is_empty());
    let (persons, keywords) = extract_person_tags(b"");
    assert!(persons.is_empty());
    assert!(keywords.is_empty());
}

#[test]
fn dc_subject_keywords_fall_back_to_persons() {
    let xml = r#"<x:xmpmeta xmlns:x="adobe:ns:meta/"
            xmlns:rdf="http://www.w3.org/1999/02/22-rdf-syntax-ns#"
            xmlns:dc="http://purl.org/dc/elements/1.1/">
        <rdf:RDF><rdf:Description>
            <dc:subject><rdf:Bag>
                <rdf:li>Alice</rdf:li>
                <rdf:li>Bob</rdf:li>
            </rdf:Bag></dc:subject>
        </rdf:Description></rdf:RDF></x:xmpmeta>"#;
    let mut data = b"leading junk ".to_vec();
    data.extend_from_slice(xml.as_bytes());
    let (persons, keywords) = extract_person_tags(&data);
    assert_eq!(keywords, vec!["Alice".to_string(), "Bob".to_string()]);
    assert_eq!(persons, vec!["Alice".to_string(), "Bob".to_string()]);
}

#[test]
fn hierarchical_subject_names_person_without_fallback() {
    let xml = r#"<x:xmpmeta xmlns:x="adobe:ns:meta/"
            xmlns:rdf="http://www.w3.org/1999/02/22-rdf-syntax-ns#"
            xmlns:lr="http://ns.adobe.com/lightroom/1.0/">
        <rdf:RDF><rdf:Description>
            <lr:hierarchicalSubject><rdf:Bag>
                <rdf:li>People|Alice</rdf:li>
            </rdf:Bag></lr:hierarchicalSubject>
        </rdf:Description></rdf:RDF></x:xmpmeta>"#;
    let (persons, keywords) = extract_person_tags(xml.as_bytes());
    assert_eq!(persons, vec!["Alice".to_string()]);
    assert!(keywords.is_empty());
}

#[test]
fn iptc_keywords_fall_back_to_persons() {
    let data = photoshop_stream_with_keywords(&["Carol", "Dave"]);
    let (persons, keywords) = extract_person_tags(&data);
    assert_eq!(keywords, vec!["Carol".to_string(), "Dave".to_string()]);
    assert_eq!(persons, vec!["Carol".to_string(), "Dave".to_string()]);
}

#[test]
fn oversized_iptc_block_keeps_earlier_results() {
    let mut data = photoshop_stream_with_keywords(&["Carol"]);
    // A second block whose size field exceeds the remaining buffer.
    data.extend_from_slice(b"8BIM");
    data.extend_from_slice(&[0x04, 0x04, 0, 0]);
    data.extend_from_slice(&[0xFF, 0xFF, 0xFF, 0xFF]);
    data.extend_from_slice(b"tail");
    let (persons, keywords) = extract_person_tags(&data);
    assert_eq!(keywords, vec!["Carol".to_string()]);
    assert_eq!(persons, vec!["Carol".to_string()]);
}

#[test]
fn results_are_sorted_and_deduplicated() {
    let xml = r#"<x:xmpmeta xmlns:x="adobe:ns:meta/"
            xmlns:rdf="http://www.w3.org/1999/02/22-rdf-syntax-ns#"
            xmlns:dc="http://purl.org/dc/elements/1.1/">
        <dc:subject><rdf:Bag>
            <rdf:li>Bob</rdf:li>
            <rdf:li>alice</rdf:li>
        </rdf:Bag></dc:subject></x:xmpmeta>"#;
    let mut data = xml.as_bytes().to_vec();
    data.extend_from_slice(&photoshop_stream_with_keywords(&["Bob", "Carol"]));
    let (persons, keywords) = extract_person_tags(&data);
    // Byte-wise ordinal order: upper-case letters sort before lower-case.
    assert_eq!(
        keywords,
        vec!["Bob".to_string(), "Carol".to_string(), "alice".to_string()]
    );
    assert_eq!(persons, keywords);
}

#[test]
fn persons_stay_when_both_rules_fire() {
    let xml = r#"<x:xmpmeta xmlns:x="adobe:ns:meta/"
            xmlns:rdf="http://www.w3.org/1999/02/22-rdf-syntax-ns#"
            xmlns:dc="http://purl.org/dc/elements/1.1/"
            xmlns:lr="http://ns.adobe.com/lightroom/1.0/">
        <rdf:RDF><rdf:Description>
            <dc:subject><rdf:Bag><rdf:li>Travel</rdf:li></rdf:Bag></dc:subject>
            <lr:hierarchicalSubject><rdf:Bag>
                <rdf:li>People|Zoe</rdf:li>
            </rdf:Bag></lr:hierarchicalSubject>
        </rdf:Description></rdf:RDF></x:xmpmeta>"#;
    let (persons, keywords) = extract_person_tags(xml.as_bytes());
    assert_eq!(persons, vec!["Zoe".to_string()]);
    assert_eq!(keywords, vec!["Travel".to_string()]);
}

#[test]
fn extraction_is_deterministic() {
    let data = photoshop_stream_with_keywords(&["Carol"]);
    let first = extract_person_tags(&data);
    let second = extract_person_tags(&data);
    assert_eq!(first, second);
}
