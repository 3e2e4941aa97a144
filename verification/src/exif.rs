//! Extraction of the Windows-convention XPKeywords EXIF tag: a private
//! TIFF tag holding UTF-16LE text with `;`-separated keywords.

use crate::text::{chars_of, split_chars, split_on, string_of_chars, subrange_chars, trim_chars,
    trimmed};
use vstd::prelude::*;

verus! {

/// The private TIFF tag code of the Windows XPKeywords field.
pub const XP_KEYWORDS_TAG: u16 = 0x9C9E;

/// The raw byte value of the TIFF tag `tag` in the primary image's EXIF
/// directory of the file bytes: `None` when the file holds no readable
/// EXIF container, the tag is absent, or its value is not a byte array.
/// A function of the file bytes alone.
pub uninterp spec fn exif_byte_field_of(d: Seq<u8>, tag: u16) -> Option<Seq<u8>>;

/// Relies on `exif::Reader::read_from_container` and `Exif::get_field`:
/// fetches the raw byte value of the given TIFF tag for the primary
/// image; the parse depends on the file bytes alone.
#[verifier::external_body]
pub(crate) fn exif_byte_field(data: &[u8], tag_code: u16) -> (r: Option<Vec<u8>>)
    ensures
        match r {
            Some(v) => exif_byte_field_of(data@, tag_code) == Some(v@),
            None => exif_byte_field_of(data@, tag_code) is None,
        },
{
    let mut cur = std::io::Cursor::new(data);
    let exif = exif::Reader::new().read_from_container(&mut cur).ok()?;
    let field = exif.get_field(exif::Tag(exif::Context::Tiff, tag_code), exif::In::PRIMARY)?;
    match &field.value {
        exif::Value::Byte(b) => Some(b.clone()),
        _ => None,
    }
}

/// Relies on `exif::Reader::read_from_container`, `Exif::get_field` and
/// `Field::display_value`: the displayed `ImageDescription` text of the
/// file's EXIF data, if any. The field is read but deliberately feeds no
/// candidate list.
#[verifier::external_body]
pub(crate) fn exif_image_description(data: &[u8]) -> (r: Option<String>) {
    let mut cur = std::io::Cursor::new(data);
    let exif = exif::Reader::new().read_from_container(&mut cur).ok()?;
    let field = exif.get_field(exif::Tag::ImageDescription, exif::In::PRIMARY)?;
    Some(field.display_value().to_string())
}

/// The lossy UTF-16 decoding that `String::from_utf16_lossy` computes,
/// a function of the code units alone.
pub uninterp spec fn utf16_lossy_of(units: Seq<u16>) -> Seq<char>;

/// Relies on `String::from_utf16_lossy`: the lossy UTF-16 decoding of
/// the code units, depending on the units alone.
#[verifier::external_body]
pub(crate) fn utf16_lossy(units: &[u16]) -> (r: String)
    ensures
        r@ == utf16_lossy_of(units@),
{
    String::from_utf16_lossy(units)
}

/// The little-endian 16-bit code units of a byte array, read pairwise;
/// a trailing odd byte is dropped.
pub open spec fn le_units_of(b: Seq<u8>) -> Seq<u16> {
    Seq::new((b.len() / 2) as nat, |i: int| (b[2 * i] + 256 * b[2 * i + 1]) as u16)
}

/// `t` with every trailing NUL character removed.
pub open spec fn without_trailing_nuls(t: Seq<char>) -> Seq<char>
    decreases t.len(),
{
    if t.len() > 0 && t.last() == '\u{0}' {
        without_trailing_nuls(t.drop_last())
    } else {
        t
    }
}

/// The trimmed non-empty entries among `parts[k..]`.
pub open spec fn keywords_of_parts(parts: Seq<Seq<char>>, k: int) -> Seq<Seq<char>>
    decreases parts.len() - k,
{
    if k < 0 || k >= parts.len() {
        Seq::empty()
    } else {
        let rest = keywords_of_parts(parts, k + 1);
        if trimmed(parts[k]).len() > 0 {
            seq![trimmed(parts[k])] + rest
        } else {
            rest
        }
    }
}

/// The keywords of one XPKeywords byte value: UTF-16LE text, trailing
/// NULs stripped, split on `;`, each piece trimmed, empties dropped.
pub open spec fn xp_keywords_of_bytes(b: Seq<u8>) -> Seq<Seq<char>> {
    let text = utf16_lossy_of(le_units_of(b));
    keywords_of_parts(split_on(without_trailing_nuls(text), ';'), 0)
}

/// The keywords the EXIF stage yields for the file bytes: the decoded
/// XPKeywords value, or nothing when the tag cannot be read.
pub open spec fn exif_keywords_of(d: Seq<u8>) -> Seq<Seq<char>> {
    match exif_byte_field_of(d, XP_KEYWORDS_TAG) {
        Option::Some(b) => xp_keywords_of_bytes(b),
        Option::None => Seq::empty(),
    }
}

/// Reads the XPKeywords tag of the file bytes and decodes its UTF-16LE
/// keyword list. The `ImageDescription` tag is read as well but feeds no
/// candidate: a documented reserved no-op.
pub fn read_exif_keywords(data: &[u8]) -> (r: Vec<String>)
    ensures
        r.deep_view() == exif_keywords_of(data@),
{
    let field = exif_byte_field(data, XP_KEYWORDS_TAG);
    let _description = exif_image_description(data);
    let keywords: Vec<String> = match field {
        None => {
            assert(exif_keywords_of(data@) =~~= Seq::<Seq<char>>::empty());
            Vec::new()
        },
        Some(bytes) => {
            let len = bytes.len();
            let pairs = len / 2;
            let mut units: Vec<u16> = Vec::new();
            let mut i: usize = 0;
            while i < pairs
                invariant
                    0 <= i <= pairs,
                    pairs == bytes@.len() / 2,
                    len == bytes@.len(),
                    units@ == le_units_of(bytes@).subrange(0, i as int),
                decreases pairs - i,
            {
                let unit: u16 = (bytes[2 * i] as u16) + 256 * (bytes[2 * i + 1] as u16);
                units.push(unit);
                assert(units@ =~= le_units_of(bytes@).subrange(0, i + 1));
                i = i + 1;
            }
            assert(units@ =~= le_units_of(bytes@));
            let s = utf16_lossy(&units);
            let tv = chars_of(s.as_str());
            let mut end = tv.len();
            proof {
                assert(tv@.subrange(0, end as int) =~= tv@);
            }
            while end > 0 && tv[end - 1] == '\u{0}'
                invariant
                    0 <= end <= tv@.len(),
                    without_trailing_nuls(tv@) == without_trailing_nuls(
                        tv@.subrange(0, end as int),
                    ),
                decreases end,
            {
                proof {
                    let cur = tv@.subrange(0, end as int);
                    assert(cur.last() == tv@[end - 1]);
                    assert(cur.drop_last() =~= tv@.subrange(0, end - 1));
                }
                end = end - 1;
            }
            proof {
                assert(tv@.subrange(0, tv@.len() as int) =~= tv@);
                let cur = tv@.subrange(0, end as int);
                assert(without_trailing_nuls(cur) == cur);
            }
            let stripped = subrange_chars(&tv, 0, end);
            let parts = split_chars(&stripped, ';');
            let ghost sp = split_on(without_trailing_nuls(utf16_lossy_of(le_units_of(bytes@))), ';');
            assert(parts.deep_view() == sp);
            let n = parts.len();
            let mut out: Vec<String> = Vec::new();
            let mut k: usize = 0;
            proof {
                assert(out.deep_view() + keywords_of_parts(sp, 0) =~~= keywords_of_parts(sp, 0));
            }
            while k < n
                invariant
                    0 <= k <= n,
                    n == parts@.len(),
                    parts.deep_view() == sp,
                    keywords_of_parts(sp, 0) == out.deep_view() + keywords_of_parts(sp, k as int),
                decreases n - k,
            {
                let t = trim_chars(&parts[k]);
                proof {
                    assert(parts.deep_view()[k as int] == parts@[k as int]@);
                }
                if t.len() > 0 {
                    let ghost oldout = out.deep_view();
                    out.push(string_of_chars(&t));
                    proof {
                        assert(out.deep_view() =~~= oldout.push(trimmed(sp[k as int])));
                        assert(oldout.push(trimmed(sp[k as int])) + keywords_of_parts(sp, k + 1)
                            =~~= oldout + keywords_of_parts(sp, k as int));
                    }
                }
                k = k + 1;
            }
            assert(out.deep_view() + keywords_of_parts(sp, n as int) =~~= out.deep_view());
            out
        },
    };
    keywords
}

} // verus!
