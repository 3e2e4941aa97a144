//! The top-level extraction: from one image file's raw bytes to its
//! `(persons, keywords)` pair.
//!
//! The three decoders run independently — EXIF XPKeywords, XMP
//! heuristics, IPTC-IIM inside Photoshop resource blocks — and their
//! candidates are merged, sorted and deduplicated. When no region or
//! hierarchy rule named a person but keywords exist, the person list is a
//! copy of the keyword list: a deliberate low-precision, high-recall
//! fallback.

use crate::aggregate::{
    clone_strings, lemma_sort_dedup_props, lemma_strictly_sorted_distinct, sort_dedup,
    sorted_dedup, strictly_sorted,
};
use crate::exif::{exif_byte_field_of, exif_keywords_of, read_exif_keywords, XP_KEYWORDS_TAG};
use crate::iptc::{irb_keywords_from, parse_iptc_from_photoshop};
use crate::locate::{extract_xmp_from_bytes, find_subsequence, xmp_chunk_of_bytes};
use crate::text::{first_match_from, lemma_first_match_from_correct, matches_at};
use crate::xmp::{parse_xmp_xml, xmp_keywords_of_text, xmp_persons_of_text};
use vstd::prelude::*;

verus! {

/// The 14-byte marker that opens a Photoshop image-resource stream:
/// the bytes of `Photoshop 3.0` followed by one NUL.
pub open spec fn photoshop_marker() -> Seq<u8> {
    seq![
        0x50u8,
        0x68u8,
        0x6Fu8,
        0x74u8,
        0x6Fu8,
        0x73u8,
        0x68u8,
        0x6Fu8,
        0x70u8,
        0x20u8,
        0x33u8,
        0x2Eu8,
        0x30u8,
        0x00u8,
    ]
}

/// The keywords the IPTC stage yields: the resource stream after the
/// first Photoshop marker, decoded; nothing when the marker is absent.
pub open spec fn iptc_stage_keywords(d: Seq<u8>) -> Seq<Seq<char>> {
    match first_match_from(d, photoshop_marker(), 0) {
        Option::Some(i) => irb_keywords_from(d.subrange(i + 14, d.len() as int), 0),
        Option::None => Seq::empty(),
    }
}

/// The person names the XMP stage yields; nothing when no packet is found.
pub open spec fn xmp_stage_persons(d: Seq<u8>) -> Seq<Seq<char>> {
    match xmp_chunk_of_bytes(d) {
        Option::Some(t) => xmp_persons_of_text(t),
        Option::None => Seq::empty(),
    }
}

/// The keywords the XMP stage yields; nothing when no packet is found.
pub open spec fn xmp_stage_keywords(d: Seq<u8>) -> Seq<Seq<char>> {
    match xmp_chunk_of_bytes(d) {
        Option::Some(t) => xmp_keywords_of_text(t),
        Option::None => Seq::empty(),
    }
}

/// All keyword candidates, in the order gathered: EXIF, XMP, IPTC.
pub open spec fn raw_keywords(d: Seq<u8>) -> Seq<Seq<char>> {
    exif_keywords_of(d) + xmp_stage_keywords(d) + iptc_stage_keywords(d)
}

/// All person candidates: what the XMP region and hierarchy rules named.
pub open spec fn raw_persons(d: Seq<u8>) -> Seq<Seq<char>> {
    xmp_stage_persons(d)
}

/// The final keyword list: sorted and duplicate-free.
pub open spec fn extraction_keywords(d: Seq<u8>) -> Seq<Seq<char>> {
    sort_dedup(raw_keywords(d))
}

/// The final person list: the sorted person candidates — or a copy of
/// the keyword list when no rule named a person and keywords exist.
pub open spec fn extraction_persons(d: Seq<u8>) -> Seq<Seq<char>> {
    let p = sort_dedup(raw_persons(d));
    let k = extraction_keywords(d);
    if p.len() == 0 && k.len() > 0 {
        k
    } else {
        p
    }
}

/// The Photoshop marker as bytes.
fn photoshop_marker_bytes() -> (r: Vec<u8>)
    ensures
        r@ == photoshop_marker(),
{
    let mut m: Vec<u8> = Vec::new();
    m.push(0x50);
    m.push(0x68);
    m.push(0x6F);
    m.push(0x74);
    m.push(0x6F);
    m.push(0x73);
    m.push(0x68);
    m.push(0x6F);
    m.push(0x70);
    m.push(0x20);
    m.push(0x33);
    m.push(0x2E);
    m.push(0x30);
    m.push(0x00);
    assert(m@ =~= photoshop_marker());
    m
}

/// Extracts all person and keyword tags from one image file's raw bytes.
/// Both returned lists are lexicographically sorted and duplicate-free;
/// malformed or absent metadata of any one family yields nothing for that
/// family, never an error.
pub fn extract_person_tags(data: &[u8]) -> (r: (Vec<String>, Vec<String>))
    ensures
        r.0.deep_view() == extraction_persons(data@),
        r.1.deep_view() == extraction_keywords(data@),
        strictly_sorted(r.0.deep_view()),
        strictly_sorted(r.1.deep_view()),
{
    let mut kw_raw: Vec<String> = read_exif_keywords(data);
    let mut p_raw: Vec<String> = Vec::new();
    match extract_xmp_from_bytes(data) {
        Some(xml) => {
            parse_xmp_xml(xml.as_str(), &mut p_raw, &mut kw_raw);
        },
        None => {},
    }
    proof {
        assert(kw_raw.deep_view() =~~= exif_keywords_of(data@) + xmp_stage_keywords(data@));
        assert(p_raw.deep_view() =~~= raw_persons(data@));
    }
    let ghost kw_mid = kw_raw.deep_view();
    let marker = photoshop_marker_bytes();
    proof {
        assert(photoshop_marker().len() == 14);
    }
    match find_subsequence(data, &marker) {
        Some(i) => {
            let dlen = data.len();
            proof {
                lemma_first_match_from_correct(data@, photoshop_marker(), 0);
                assert(matches_at(data@, photoshop_marker(), i as int));
                assert(i + 14 <= dlen);
            }
            let stream = &data[i + 14..dlen];
            parse_iptc_from_photoshop(stream, &mut kw_raw);
            proof {
                assert(kw_raw.deep_view() =~~= kw_mid + iptc_stage_keywords(data@));
            }
        },
        None => {
            proof {
                assert(kw_raw.deep_view() =~~= kw_mid + iptc_stage_keywords(data@));
            }
        },
    }
    proof {
        assert(kw_raw.deep_view() =~~= raw_keywords(data@));
    }
    let keywords = sorted_dedup(&kw_raw);
    let persons_base = sorted_dedup(&p_raw);
    let persons: Vec<String> = if persons_base.len() == 0 && keywords.len() > 0 {
        clone_strings(&keywords)
    } else {
        persons_base
    };
    (persons, keywords)
}

/// Determinism: the extraction result is a function of the file bytes
/// alone, so identical bytes always yield identical results.
pub proof fn lemma_extraction_deterministic(d1: Seq<u8>, d2: Seq<u8>)
    requires
        d1 == d2,
    ensures
        extraction_persons(d1) == extraction_persons(d2),
        extraction_keywords(d1) == extraction_keywords(d2),
{
}

/// A buffer in which none of the three marker families is present — no
/// Photoshop marker, no XMP packet, no readable XPKeywords EXIF field —
/// yields two empty lists.
pub proof fn lemma_no_metadata_empty(d: Seq<u8>)
    ensures
        (first_match_from(d, photoshop_marker(), 0) is None && xmp_chunk_of_bytes(d) is None
            && exif_byte_field_of(d, XP_KEYWORDS_TAG) is None) ==> (extraction_persons(d)
            == Seq::<Seq<char>>::empty() && extraction_keywords(d) == Seq::<Seq<char>>::empty()),
{
    if first_match_from(d, photoshop_marker(), 0) is None && xmp_chunk_of_bytes(d) is None
        && exif_byte_field_of(d, XP_KEYWORDS_TAG) is None {
        assert(raw_keywords(d) =~= Seq::<Seq<char>>::empty());
        assert(raw_persons(d) =~= Seq::<Seq<char>>::empty());
        assert(extraction_keywords(d) == Seq::<Seq<char>>::empty());
        assert(extraction_persons(d) == Seq::<Seq<char>>::empty());
    }
}

/// Neither final list ever holds the same value twice.
pub proof fn lemma_extraction_no_duplicates(d: Seq<u8>)
    ensures
        forall|i: int, j: int|
            0 <= i < j < extraction_persons(d).len() ==> extraction_persons(d)[i]
                != extraction_persons(d)[j],
        forall|i: int, j: int|
            0 <= i < j < extraction_keywords(d).len() ==> extraction_keywords(d)[i]
                != extraction_keywords(d)[j],
{
    lemma_sort_dedup_props(raw_keywords(d));
    lemma_sort_dedup_props(raw_persons(d));
    assert forall|i: int, j: int|
        0 <= i < j < extraction_persons(d).len() implies extraction_persons(d)[i]
        != extraction_persons(d)[j] by {
        lemma_strictly_sorted_distinct(extraction_persons(d), i, j);
    }
    assert forall|i: int, j: int|
        0 <= i < j < extraction_keywords(d).len() implies extraction_keywords(d)[i]
        != extraction_keywords(d)[j] by {
        lemma_strictly_sorted_distinct(extraction_keywords(d), i, j);
    }
}

/// The fallback law: when the region and hierarchy rules named no person
/// and the keyword set is non-empty, the person list is the keyword list.
pub proof fn lemma_person_fallback(d: Seq<u8>)
    ensures
        raw_persons(d).len() == 0 && extraction_keywords(d).len() > 0 ==> extraction_persons(d)
            == extraction_keywords(d),
{
}

/// Nothing is lost and nothing is invented by the merge: the final
/// keyword list holds exactly the candidate values of the three stages.
pub proof fn lemma_keywords_complete(d: Seq<u8>)
    ensures
        forall|y: Seq<char>| #[trigger] extraction_keywords(d).contains(y) <==> raw_keywords(
            d,
        ).contains(y),
{
    lemma_sort_dedup_props(raw_keywords(d));
}

} // verus!
