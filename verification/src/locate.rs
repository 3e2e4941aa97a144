//! Locating embedded metadata segments inside a raw byte buffer: the XMP
//! XML packet and the Photoshop image-resource stream.

use crate::text::{
    chars_find_from, chars_of, first_match_from, matches_at, string_of_chars, subrange_chars,
};
use vstd::prelude::*;

verus! {

/// Index of the first occurrence of the byte sequence `needle` inside
/// `haystack`, scanning forward one byte at a time.
pub fn find_subsequence(haystack: &[u8], needle: &[u8]) -> (r: Option<usize>)
    requires
        needle@.len() >= 1,
    ensures
        match r {
            Some(k) => first_match_from(haystack@, needle@, 0) == Some(k as int),
            None => first_match_from(haystack@, needle@, 0) is None,
        },
{
    let hl = haystack.len();
    let nl = needle.len();
    let mut i: usize = 0;
    while i <= hl && hl - i >= nl
        invariant
            0 <= i <= hl + 1,
            hl == haystack@.len(),
            nl == needle@.len(),
            nl >= 1,
            first_match_from(haystack@, needle@, 0) == first_match_from(
                haystack@,
                needle@,
                i as int,
            ),
        decreases hl - i,
    {
        let mut j: usize = 0;
        let mut all_eq: bool = true;
        while j < nl
            invariant
                0 <= j <= nl,
                hl == haystack@.len(),
                nl == needle@.len(),
                i + nl <= hl,
                all_eq == (forall|k: int| 0 <= k < j ==> haystack@[i + k] == needle@[k]),
            decreases nl - j,
        {
            if haystack[i + j] != needle[j] {
                assert(haystack@[i + j] != needle@[j as int]);
                all_eq = false;
                j = nl;
            } else {
                j = j + 1;
            }
        }
        if all_eq {
            assert(haystack@.subrange(i as int, i + nl as int) =~= needle@);
            return Some(i);
        }
        assert(haystack@.subrange(i as int, i + nl as int) != needle@) by {
            assert(exists|k: int| 0 <= k < nl && haystack@[i + k] != needle@[k]);
            let k = choose|k: int| 0 <= k < nl && haystack@[i + k] != needle@[k];
            assert(haystack@.subrange(i as int, i + nl as int)[k] == haystack@[i + k]);
        }
        i = i + 1;
    }
    None
}

// ---------------------------------------------------------------------------
// The lossy UTF-8 text view of the raw bytes.
// ---------------------------------------------------------------------------
/// The lossy UTF-8 decoding that `String::from_utf8_lossy` computes,
/// a function of the bytes alone.
pub uninterp spec fn utf8_lossy_of(d: Seq<u8>) -> Seq<char>;

/// Relies on `String::from_utf8_lossy`: the lossy text view of the bytes,
/// with invalid sequences replaced; it depends on the bytes alone.
#[verifier::external_body]
pub(crate) fn utf8_lossy(data: &[u8]) -> (r: String)
    ensures
        r@ == utf8_lossy_of(data@),
{
    String::from_utf8_lossy(data).into_owned()
}

// ---------------------------------------------------------------------------
// XMP packet location.
// ---------------------------------------------------------------------------
/// First marker pair tried: a bare `x:xmpmeta` element.
pub open spec fn xmp_meta_start() -> Seq<char> {
    "<x:xmpmeta"@
}

pub open spec fn xmp_meta_end() -> Seq<char> {
    "</x:xmpmeta>"@
}

/// Second marker pair tried: an `xpacket` processing-instruction wrapper.
pub open spec fn xpacket_start() -> Seq<char> {
    "<?xpacket begin"@
}

pub open spec fn xpacket_end() -> Seq<char> {
    "<?xpacket end"@
}

/// The text from the first occurrence of `sm` through the end of the first
/// occurrence of `em` at or after it, if both are present.
pub open spec fn chunk_between(t: Seq<char>, sm: Seq<char>, em: Seq<char>) -> Option<Seq<char>> {
    match first_match_from(t, sm, 0) {
        Option::None => Option::None,
        Option::Some(s) => match first_match_from(t, em, s) {
            Option::None => Option::None,
            Option::Some(e) => Option::Some(t.subrange(s, e + em.len())),
        },
    }
}

/// Narrows a located chunk to the nested `x:xmpmeta` element when the chunk
/// holds one (the start marker at or before the end marker); an xpacket
/// wrapper may hold processing instructions that are not part of the XML
/// document proper.
pub open spec fn narrow_to_meta(chunk: Seq<char>) -> Seq<char> {
    match first_match_from(chunk, xmp_meta_start(), 0) {
        Option::None => chunk,
        Option::Some(ms) => match first_match_from(chunk, xmp_meta_end(), 0) {
            Option::None => chunk,
            Option::Some(me) => if ms <= me {
                chunk.subrange(ms, me + xmp_meta_end().len())
            } else {
                chunk
            },
        },
    }
}

/// The XMP XML chunk located inside the lossy text view `t`: the first
/// marker pair that succeeds wins, and the result is narrowed to the
/// nested `x:xmpmeta` element when one is present.
pub open spec fn xmp_chunk_of_text(t: Seq<char>) -> Option<Seq<char>> {
    match chunk_between(t, xmp_meta_start(), xmp_meta_end()) {
        Option::Some(c) => Option::Some(narrow_to_meta(c)),
        Option::None => match chunk_between(t, xpacket_start(), xpacket_end()) {
            Option::Some(c) => Option::Some(narrow_to_meta(c)),
            Option::None => Option::None,
        },
    }
}

/// The XMP XML chunk of a raw byte buffer, read through its lossy text view.
pub open spec fn xmp_chunk_of_bytes(d: Seq<u8>) -> Option<Seq<char>> {
    xmp_chunk_of_text(utf8_lossy_of(d))
}

/// Locates one marker pair inside `tv`.
fn chunk_between_exec(tv: &[char], sm: &[char], em: &[char]) -> (r: Option<Vec<char>>)
    requires
        sm@.len() >= 1,
        em@.len() >= 1,
    ensures
        match r {
            Some(v) => chunk_between(tv@, sm@, em@) == Some(v@),
            None => chunk_between(tv@, sm@, em@) is None,
        },
{
    match chars_find_from(tv, sm, 0) {
        None => None,
        Some(s) => {
            proof {
                crate::text::lemma_first_match_from_correct(tv@, sm@, 0);
            }
            match chars_find_from(tv, em, s) {
                None => None,
                Some(e) => {
                    let tl = tv.len();
                    proof {
                        crate::text::lemma_first_match_from_correct(tv@, em@, s as int);
                        assert(matches_at(tv@, em@, e as int));
                        assert(e + em@.len() <= tl);
                    }
                    Some(subrange_chars(tv, s, e + em.len()))
                },
            }
        },
    }
}

/// Narrows a located chunk to its nested `x:xmpmeta` element, if any.
fn narrow_to_meta_exec(cv: &[char], sm: &[char], em: &[char]) -> (r: Vec<char>)
    requires
        sm@ == xmp_meta_start(),
        em@ == xmp_meta_end(),
        sm@.len() >= 1,
        em@.len() >= 1,
    ensures
        r@ == narrow_to_meta(cv@),
{
    match chars_find_from(cv, sm, 0) {
        None => subrange_chars(cv, 0, cv.len()),
        Some(ms) => {
            match chars_find_from(cv, em, 0) {
                None => subrange_chars(cv, 0, cv.len()),
                Some(me) => {
                    if ms <= me {
                        let cl = cv.len();
                        proof {
                            crate::text::lemma_first_match_from_correct(cv@, em@, 0);
                            assert(matches_at(cv@, em@, me as int));
                            assert(me + em@.len() <= cl);
                        }
                        subrange_chars(cv, ms, me + em.len())
                    } else {
                        subrange_chars(cv, 0, cv.len())
                    }
                },
            }
        },
    }
}

/// Extracts the XMP XML chunk from raw file bytes, if one is present:
/// the buffer is read as lossy UTF-8 text, the marker pairs
/// `<x:xmpmeta`/`</x:xmpmeta>` and `<?xpacket begin`/`<?xpacket end` are
/// tried in that order, and the first pair found in full wins.
pub fn extract_xmp_from_bytes(data: &[u8]) -> (r: Option<String>)
    ensures
        match r {
            Some(s) => xmp_chunk_of_bytes(data@) == Some(s@),
            None => xmp_chunk_of_bytes(data@) is None,
        },
{
    let text = utf8_lossy(data);
    let tv = chars_of(text.as_str());
    proof {
        reveal_strlit("<x:xmpmeta");
        reveal_strlit("</x:xmpmeta>");
        reveal_strlit("<?xpacket begin");
        reveal_strlit("<?xpacket end");
    }
    let sm1 = chars_of("<x:xmpmeta");
    let em1 = chars_of("</x:xmpmeta>");
    let chunk: Option<Vec<char>> = match chunk_between_exec(&tv, &sm1, &em1) {
        Some(c) => Some(c),
        None => {
            let sm2 = chars_of("<?xpacket begin");
            let em2 = chars_of("<?xpacket end");
            chunk_between_exec(&tv, &sm2, &em2)
        },
    };
    match chunk {
        None => None,
        Some(cv) => {
            let narrowed = narrow_to_meta_exec(&cv, &sm1, &em1);
            Some(string_of_chars(&narrowed))
        },
    }
}

} // verus!
