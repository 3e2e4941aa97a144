//! Decoding IPTC-IIM keyword records nested inside Photoshop 8BIM
//! image-resource blocks.
//!
//! The outer scan walks the resource-block stream that follows the
//! `Photoshop 3.0\0` marker; the inner scan walks the IPTC-IIM records of
//! a resource with identifier 0x0404 and collects the Keywords datasets
//! (record 2, dataset 25). Any size field that points past the buffer
//! stops the scan, which returns what was decoded before it.

use crate::text::{chars_of, string_of_chars, trim_chars, trimmed};
use vstd::prelude::*;

verus! {

/// Relies on `String::from_utf8`: succeeds exactly on valid UTF-8 and
/// decodes the bytes' scalar values.
#[verifier::external_body]
pub(crate) fn utf8_string(b: &[u8]) -> (r: Option<String>)
    ensures
        r is Some <==> vstd::utf8::valid_utf8(b@),
        r is Some ==> r.unwrap()@ == vstd::utf8::decode_utf8(b@),
{
    String::from_utf8(b.to_vec()).ok()
}

/// Each byte read as one Unicode code point: the Latin-1 fallback
/// decoding, which never fails.
pub open spec fn latin1_of(b: Seq<u8>) -> Seq<char> {
    Seq::new(b.len(), |i: int| b[i] as char)
}

/// Latin-1 decoding of a byte slice.
fn latin1_chars(b: &[u8]) -> (r: Vec<char>)
    ensures
        r@ == latin1_of(b@),
{
    let len = b.len();
    let mut r: Vec<char> = Vec::new();
    let mut i: usize = 0;
    while i < len
        invariant
            0 <= i <= len,
            len == b@.len(),
            r@ == latin1_of(b@).subrange(0, i as int),
        decreases len - i,
    {
        r.push(b[i] as char);
        assert(r@ =~= latin1_of(b@).subrange(0, i + 1));
        i = i + 1;
    }
    assert(r@ =~= latin1_of(b@));
    r
}

/// The text of one IPTC payload: UTF-8 when the bytes are valid UTF-8,
/// the Latin-1 fallback otherwise.
pub open spec fn payload_text(b: Seq<u8>) -> Seq<char> {
    if vstd::utf8::valid_utf8(b) {
        vstd::utf8::decode_utf8(b)
    } else {
        latin1_of(b)
    }
}

/// The keywords one payload contributes: its trimmed text when non-empty.
pub open spec fn payload_keywords(b: Seq<u8>) -> Seq<Seq<char>> {
    if trimmed(payload_text(b)).len() > 0 {
        seq![trimmed(payload_text(b))]
    } else {
        Seq::empty()
    }
}

/// The big-endian 16-bit value of two bytes.
pub open spec fn be_u16(b0: u8, b1: u8) -> int {
    b0 * 256 + b1
}

/// The big-endian 32-bit value of four bytes.
pub open spec fn be_u32(b0: u8, b1: u8, b2: u8, b3: u8) -> int {
    ((b0 * 256 + b1) * 256 + b2) * 256 + b3
}

/// The keywords of all IPTC-IIM Keywords records (record 2, dataset 25)
/// found in `d` at or after `pos`, scanning byte by byte for the record
/// marker 0x1C; a field length pointing past the buffer ends the scan.
pub open spec fn iptc_keywords_from(d: Seq<u8>, pos: int) -> Seq<Seq<char>>
    recommends
        0 <= pos,
    decreases d.len() - pos,
{
    if pos < 0 || pos + 5 > d.len() {
        Seq::empty()
    } else if d[pos] != 0x1C {
        iptc_keywords_from(d, pos + 1)
    } else {
        let field_len = be_u16(d[pos + 3], d[pos + 4]);
        if pos + 5 + field_len > d.len() {
            Seq::empty()
        } else {
            let rest = iptc_keywords_from(d, pos + 5 + field_len);
            if d[pos + 1] == 2 && d[pos + 2] == 25 {
                payload_keywords(d.subrange(pos + 5, pos + 5 + field_len)) + rest
            } else {
                rest
            }
        }
    }
}

/// Scans a resource payload for IPTC-IIM records and appends the keywords
/// of every Keywords dataset (record 2, dataset 25) to `keywords`.
pub fn parse_iptc_records(data: &[u8], keywords: &mut Vec<String>)
    ensures
        final (keywords).deep_view() == old(keywords).deep_view() + iptc_keywords_from(data@, 0),
{
    let len = data.len();
    let mut pos: usize = 0;
    proof {
        assert(keywords.deep_view() + iptc_keywords_from(data@, 0) =~~= old(
            keywords,
        ).deep_view() + iptc_keywords_from(data@, 0));
    }
    while pos < len && len - pos >= 5
        invariant
            0 <= pos <= len,
            len == data@.len(),
            old(keywords).deep_view() + iptc_keywords_from(data@, 0) == keywords.deep_view()
                + iptc_keywords_from(data@, pos as int),
        decreases len - pos,
    {
        if data[pos] != 0x1C {
            pos = pos + 1;
        } else {
            let record_number = data[pos + 1];
            let dataset_number = data[pos + 2];
            let field_len: usize = (data[pos + 3] as usize) * 256 + (data[pos + 4] as usize);
            if field_len > len - (pos + 5) {
                assert(iptc_keywords_from(data@, pos as int) =~~= Seq::<Seq<char>>::empty());
                assert(keywords.deep_view() + Seq::<Seq<char>>::empty() =~~= keywords.deep_view());
                assert(iptc_keywords_from(data@, len as int) =~~= Seq::<Seq<char>>::empty());
                pos = len;
            } else {
                let ghost prev_pos = pos as int;
                let ghost next_pos = pos + 5 + field_len as int;
                if record_number == 2 && dataset_number == 25 {
                    let payload = &data[pos + 5..pos + 5 + field_len];
                    assert(payload@ == data@.subrange(prev_pos + 5, prev_pos + 5 + field_len));
                    let text: Vec<char> = match utf8_string(payload) {
                        Some(s) => chars_of(s.as_str()),
                        None => latin1_chars(payload),
                    };
                    assert(text@ == payload_text(payload@));
                    let t = trim_chars(&text);
                    if t.len() > 0 {
                        let ghost oldkw = keywords.deep_view();
                        keywords.push(string_of_chars(&t));
                        proof {
                            assert(keywords.deep_view() =~~= oldkw.push(trimmed(payload_text(
                                payload@,
                            ))));
                            assert(payload_keywords(payload@) == seq![
                                trimmed(payload_text(payload@)),
                            ]);
                            assert(oldkw.push(trimmed(payload_text(payload@)))
                                + iptc_keywords_from(data@, next_pos) =~~= oldkw
                                + iptc_keywords_from(data@, prev_pos));
                        }
                    } else {
                        assert(payload_keywords(payload@) =~~= Seq::<Seq<char>>::empty());
                        assert(keywords.deep_view() + iptc_keywords_from(data@, next_pos) =~~=
                        keywords.deep_view() + iptc_keywords_from(data@, prev_pos));
                    }
                } else {
                    assert(iptc_keywords_from(data@, prev_pos) == iptc_keywords_from(
                        data@,
                        next_pos,
                    ));
                }
                pos = pos + 5 + field_len;
            }
        }
    }
    assert(iptc_keywords_from(data@, pos as int) =~~= Seq::<Seq<char>>::empty());
    assert(keywords.deep_view() + Seq::<Seq<char>>::empty() =~~= keywords.deep_view());
}

/// The 4-byte 8BIM block signature occurs in `d` at `pos`.
pub open spec fn is_8bim_at(d: Seq<u8>, pos: int) -> bool {
    &&& 0 <= pos
    &&& pos + 4 <= d.len()
    &&& d[pos] == 0x38
    &&& d[pos + 1] == 0x42
    &&& d[pos + 2] == 0x49
    &&& d[pos + 3] == 0x4D
}

/// The stored name length padded with its length byte to an even total.
pub open spec fn padded_name_len(name_len: int) -> int {
    if (name_len + 1) % 2 != 0 {
        name_len + 2
    } else {
        name_len + 1
    }
}

/// The keywords of all IPTC resources (identifier 0x0404) among the 8BIM
/// resource blocks of `d` at or after `pos`; any block-size or name-length
/// field that points past the buffer ends the scan.
pub open spec fn irb_keywords_from(d: Seq<u8>, pos: int) -> Seq<Seq<char>>
    recommends
        0 <= pos,
    decreases d.len() - pos,
{
    if pos < 0 || pos + 12 > d.len() {
        Seq::empty()
    } else if !is_8bim_at(d, pos) {
        irb_keywords_from(d, pos + 1)
    } else {
        let resource_id = be_u16(d[pos + 4], d[pos + 5]);
        let pnl = padded_name_len(d[pos + 6] as int);
        let size_offset = pos + 6 + pnl;
        if size_offset + 4 > d.len() {
            Seq::empty()
        } else {
            let block_size = be_u32(
                d[size_offset],
                d[size_offset + 1],
                d[size_offset + 2],
                d[size_offset + 3],
            );
            let block_start = size_offset + 4;
            let block_end = block_start + block_size;
            if block_end > d.len() {
                Seq::empty()
            } else {
                let here = if resource_id == 0x0404 {
                    iptc_keywords_from(d.subrange(block_start, block_end), 0)
                } else {
                    Seq::empty()
                };
                let next = if block_end % 2 != 0 {
                    block_end + 1
                } else {
                    block_end
                };
                here + irb_keywords_from(
                    d,
                    if next > d.len() {
                        d.len() as int
                    } else {
                        next
                    },
                )
            }
        }
    }
}

/// The 8BIM block at `pos` carries a name-length or block-size field
/// that points past the end of the buffer.
pub open spec fn block_fields_malformed(d: Seq<u8>, pos: int) -> bool {
    &&& is_8bim_at(d, pos)
    &&& pos + 12 <= d.len()
    &&& {
        let size_offset = pos + 6 + padded_name_len(d[pos + 6] as int);
        size_offset + 4 > d.len() || size_offset + 4 + be_u32(
            d[size_offset],
            d[size_offset + 1],
            d[size_offset + 2],
            d[size_offset + 3],
        ) > d.len()
    }
}

/// Bounds safety of the outer scan: a block whose name-length or
/// block-size field points past the buffer stops the scan there, so the
/// stream's keywords are exactly what the blocks before it yielded and
/// nothing past the buffer end is ever read.
pub proof fn lemma_malformed_block_stops_scan(d: Seq<u8>, pos: int)
    requires
        block_fields_malformed(d, pos),
    ensures
        irb_keywords_from(d, pos) == Seq::<Seq<char>>::empty(),
{
}

/// Bounds safety of the inner scan: a record whose length field points
/// past the buffer stops the scan there.
pub proof fn lemma_truncated_record_stops_scan(d: Seq<u8>, pos: int)
    requires
        0 <= pos,
        pos + 5 <= d.len(),
        d[pos] == 0x1C,
        pos + 5 + be_u16(d[pos + 3], d[pos + 4]) > d.len(),
    ensures
        iptc_keywords_from(d, pos) == Seq::<Seq<char>>::empty(),
{
}

/// Scans a Photoshop image-resource stream (the bytes after the
/// `Photoshop 3.0\0` marker) and appends the keywords of every embedded
/// IPTC Keywords dataset to `keywords`.
pub fn parse_iptc_from_photoshop(data: &[u8], keywords: &mut Vec<String>)
    ensures
        final (keywords).deep_view() == old(keywords).deep_view() + irb_keywords_from(data@, 0),
{
    let len = data.len();
    let mut pos: usize = 0;
    proof {
        assert(keywords.deep_view() + irb_keywords_from(data@, 0) =~~= old(keywords).deep_view()
            + irb_keywords_from(data@, 0));
    }
    while pos < len && len - pos >= 12
        invariant
            0 <= pos <= len,
            len == data@.len(),
            old(keywords).deep_view() + irb_keywords_from(data@, 0) == keywords.deep_view()
                + irb_keywords_from(data@, pos as int),
        decreases len - pos,
    {
        let ghost prev_pos = pos as int;
        if !(data[pos] == 0x38 && data[pos + 1] == 0x42 && data[pos + 2] == 0x49 && data[pos + 3]
            == 0x4D) {
            pos = pos + 1;
        } else {
            let name_len: usize = data[pos + 6] as usize;
            let pnl: usize = if (name_len + 1) % 2 != 0 {
                name_len + 2
            } else {
                name_len + 1
            };
            if pnl + 10 > len - pos {
                assert(irb_keywords_from(data@, prev_pos) =~~= Seq::<Seq<char>>::empty());
                assert(keywords.deep_view() + Seq::<Seq<char>>::empty() =~~= keywords.deep_view());
                assert(irb_keywords_from(data@, len as int) =~~= Seq::<Seq<char>>::empty());
                pos = len;
            } else {
                let size_offset = pos + 6 + pnl;
                let block_size: usize = ((((data[size_offset] as usize) * 256 + (data[size_offset
                    + 1] as usize)) * 256 + (data[size_offset + 2] as usize)) * 256 + (
                data[size_offset + 3] as usize));
                if block_size > len - (size_offset + 4) {
                    assert(irb_keywords_from(data@, prev_pos) =~~= Seq::<Seq<char>>::empty());
                    assert(keywords.deep_view() + Seq::<Seq<char>>::empty() =~~=
                    keywords.deep_view());
                    assert(irb_keywords_from(data@, len as int) =~~= Seq::<Seq<char>>::empty());
                    pos = len;
                } else {
                    let block_start = size_offset + 4;
                    let block_end = block_start + block_size;
                    let resource_id: u16 = (data[pos + 4] as u16) * 256 + (data[pos + 5] as u16);
                    let ghost kw_before = keywords.deep_view();
                    let ghost here = if resource_id == 0x0404 {
                        iptc_keywords_from(data@.subrange(block_start as int, block_end as int), 0)
                    } else {
                        Seq::<Seq<char>>::empty()
                    };
                    if resource_id == 0x0404 {
                        let payload = &data[block_start..block_end];
                        parse_iptc_records(payload, keywords);
                        assert(keywords.deep_view() =~~= kw_before + here);
                    } else {
                        assert(keywords.deep_view() =~~= kw_before + here);
                    }
                    let ghost next = if block_end % 2 != 0 {
                        block_end + 1 as int
                    } else {
                        block_end as int
                    };
                    let ghost next_clamped = if next > len {
                        len as int
                    } else {
                        next
                    };
                    proof {
                        assert(irb_keywords_from(data@, prev_pos) == here + irb_keywords_from(
                            data@,
                            next_clamped,
                        ));
                        assert(kw_before + (here + irb_keywords_from(data@, next_clamped)) =~~= (
                        kw_before + here) + irb_keywords_from(data@, next_clamped));
                    }
                    pos = block_end;
                    if pos % 2 != 0 {
                        if pos < len {
                            pos = pos + 1;
                        } else {
                            pos = len;
                        }
                    }
                    assert(pos == next_clamped);
                }
            }
        }
    }
    assert(irb_keywords_from(data@, pos as int) =~~= Seq::<Seq<char>>::empty());
    assert(keywords.deep_view() + Seq::<Seq<char>>::empty() =~~= keywords.deep_view());
}

} // verus!
