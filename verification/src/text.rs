//! Character-level text utilities: whitespace trimming, splitting,
//! substring search, lexicographic order, and conversions between
//! `String` and character vectors.

use vstd::prelude::*;
use vstd::string::StrSliceExecFns;

verus! {

// ---------------------------------------------------------------------------
// Subsequence search, generic over the element type.
// ---------------------------------------------------------------------------
/// The needle `n` occurs in `h` starting exactly at index `i`.
pub open spec fn matches_at<T>(h: Seq<T>, n: Seq<T>, i: int) -> bool {
    &&& 0 <= i
    &&& i + n.len() <= h.len()
    &&& h.subrange(i, i + n.len() as int) == n
}

/// Index of the first occurrence of `n` in `h` at or after `i`, if any.
/// An empty needle matches immediately.
pub open spec fn first_match_from<T>(h: Seq<T>, n: Seq<T>, i: int) -> Option<int>
    recommends
        0 <= i,
    decreases h.len() - i,
{
    if n.len() == 0 {
        Some(i)
    } else if i + n.len() > h.len() {
        None
    } else if h.subrange(i, i + n.len() as int) == n {
        Some(i)
    } else {
        first_match_from(h, n, i + 1)
    }
}

/// `h` contains `n` somewhere.
pub open spec fn contains_seq<T>(h: Seq<T>, n: Seq<T>) -> bool {
    first_match_from(h, n, 0) is Some
}

/// `first_match_from` returns the first index at or after `i` where the
/// needle occurs, and `None` exactly when it occurs nowhere at or after `i`.
pub proof fn lemma_first_match_from_correct<T>(h: Seq<T>, n: Seq<T>, i: int)
    requires
        0 <= i,
        n.len() >= 1,
    ensures
        match first_match_from(h, n, i) {
            Some(k) => i <= k && matches_at(h, n, k) && (forall|j: int|
                i <= j < k ==> !matches_at(h, n, j)),
            None => forall|j: int| i <= j ==> !matches_at(h, n, j),
        },
    decreases h.len() - i,
{
    if i + n.len() > h.len() {
    } else if h.subrange(i, i + n.len() as int) == n {
    } else {
        lemma_first_match_from_correct(h, n, i + 1);
    }
}

// ---------------------------------------------------------------------------
// Whitespace and trimming.
// ---------------------------------------------------------------------------
/// The Unicode `White_Space` set, the characters that `str::trim` removes.
pub open spec fn is_space(c: char) -> bool {
    ||| c == ' '
    ||| c == '\u{9}'
    ||| c == '\u{A}'
    ||| c == '\u{B}'
    ||| c == '\u{C}'
    ||| c == '\u{D}'
    ||| c == '\u{85}'
    ||| c == '\u{A0}'
    ||| c == '\u{1680}'
    ||| c == '\u{2000}'
    ||| c == '\u{2001}'
    ||| c == '\u{2002}'
    ||| c == '\u{2003}'
    ||| c == '\u{2004}'
    ||| c == '\u{2005}'
    ||| c == '\u{2006}'
    ||| c == '\u{2007}'
    ||| c == '\u{2008}'
    ||| c == '\u{2009}'
    ||| c == '\u{200A}'
    ||| c == '\u{2028}'
    ||| c == '\u{2029}'
    ||| c == '\u{202F}'
    ||| c == '\u{205F}'
    ||| c == '\u{3000}'
}

/// Executable test for the `White_Space` set.
pub fn space_char(c: char) -> (r: bool)
    ensures
        r == is_space(c),
{
    c == ' ' || c == '\u{9}' || c == '\u{A}' || c == '\u{B}' || c == '\u{C}' || c == '\u{D}'
        || c == '\u{85}' || c == '\u{A0}' || c == '\u{1680}' || c == '\u{2000}' || c == '\u{2001}'
        || c == '\u{2002}' || c == '\u{2003}' || c == '\u{2004}' || c == '\u{2005}' || c
        == '\u{2006}' || c == '\u{2007}' || c == '\u{2008}' || c == '\u{2009}' || c == '\u{200A}'
        || c == '\u{2028}' || c == '\u{2029}' || c == '\u{202F}' || c == '\u{205F}' || c
        == '\u{3000}'
}

/// Index of the first non-whitespace character at or after `i`
/// (`s.len()` when there is none).
pub open spec fn first_non_space(s: Seq<char>, i: int) -> int
    recommends
        0 <= i <= s.len(),
    decreases s.len() - i,
{
    if i < 0 || i >= s.len() {
        s.len() as int
    } else if is_space(s[i]) {
        first_non_space(s, i + 1)
    } else {
        i
    }
}

/// Index of the last non-whitespace character at or before `i`
/// (`-1` when there is none).
pub open spec fn last_non_space(s: Seq<char>, i: int) -> int
    recommends
        i < s.len(),
    decreases i + 1,
{
    if i < 0 || i >= s.len() {
        -1
    } else if is_space(s[i]) {
        last_non_space(s, i - 1)
    } else {
        i
    }
}

/// `s` with leading and trailing whitespace removed, as `str::trim` does.
pub open spec fn trimmed(s: Seq<char>) -> Seq<char> {
    let a = first_non_space(s, 0);
    if a == s.len() {
        Seq::empty()
    } else {
        s.subrange(a, last_non_space(s, s.len() - 1) + 1)
    }
}

pub proof fn lemma_first_non_space(s: Seq<char>, i: int)
    requires
        0 <= i <= s.len(),
    ensures
        i <= first_non_space(s, i) <= s.len(),
        forall|j: int| i <= j < first_non_space(s, i) ==> is_space(s[j]),
        first_non_space(s, i) < s.len() ==> !is_space(s[first_non_space(s, i)]),
    decreases s.len() - i,
{
    if i < s.len() && is_space(s[i]) {
        lemma_first_non_space(s, i + 1);
    }
}

pub proof fn lemma_last_non_space(s: Seq<char>, i: int)
    requires
        -1 <= i < s.len(),
    ensures
        -1 <= last_non_space(s, i) <= i,
        forall|j: int| last_non_space(s, i) < j <= i ==> is_space(s[j]),
        last_non_space(s, i) >= 0 ==> !is_space(s[last_non_space(s, i)]),
    decreases i + 1,
{
    if 0 <= i && is_space(s[i]) {
        lemma_last_non_space(s, i - 1);
    }
}

/// `v` with leading and trailing whitespace removed.
pub fn trim_chars(v: &[char]) -> (r: Vec<char>)
    ensures
        r@ == trimmed(v@),
{
    let len = v.len();
    let mut a: usize = 0;
    while a < len && space_char(v[a])
        invariant
            0 <= a <= len,
            len == v@.len(),
            first_non_space(v@, 0) == first_non_space(v@, a as int),
        decreases len - a,
    {
        a = a + 1;
    }
    assert(first_non_space(v@, 0) == a);
    if a == len {
        let r: Vec<char> = Vec::new();
        return r;
    }
    let mut b: usize = len - 1;
    while b > a && space_char(v[b])
        invariant
            a <= b < len,
            len == v@.len(),
            !is_space(v@[a as int]),
            last_non_space(v@, len - 1) == last_non_space(v@, b as int),
        decreases b,
    {
        b = b - 1;
    }
    assert(last_non_space(v@, len - 1) == b);
    let mut r: Vec<char> = Vec::new();
    let mut i: usize = a;
    while i <= b
        invariant
            a <= i <= b + 1,
            b < len,
            len == v@.len(),
            r@ == v@.subrange(a as int, i as int),
        decreases b + 1 - i,
    {
        r.push(v[i]);
        assert(r@ =~= v@.subrange(a as int, i + 1));
        i = i + 1;
    }
    assert(r@ == trimmed(v@));
    r
}

// ---------------------------------------------------------------------------
// Character search, equality and containment.
// ---------------------------------------------------------------------------
/// Index of the first occurrence of `c` in `s` at or after `i`
/// (`s.len()` when there is none).
pub open spec fn char_index_from(s: Seq<char>, c: char, i: int) -> int
    recommends
        0 <= i,
    decreases s.len() - i,
{
    if i < 0 || i >= s.len() {
        s.len() as int
    } else if s[i] == c {
        i
    } else {
        char_index_from(s, c, i + 1)
    }
}

pub proof fn lemma_char_index_from(s: Seq<char>, c: char, i: int)
    requires
        0 <= i <= s.len(),
    ensures
        i <= char_index_from(s, c, i) <= s.len(),
        forall|j: int| i <= j < char_index_from(s, c, i) ==> s[j] != c,
        char_index_from(s, c, i) < s.len() ==> s[char_index_from(s, c, i)] == c,
    decreases s.len() - i,
{
    if i < s.len() && s[i] != c {
        lemma_char_index_from(s, c, i + 1);
    }
}

/// Whether the two character slices hold the same characters.
pub fn chars_eq(a: &[char], b: &[char]) -> (r: bool)
    ensures
        r == (a@ == b@),
{
    if a.len() != b.len() {
        assert(a@.len() != b@.len());
        return false;
    }
    let mut i: usize = 0;
    while i < a.len()
        invariant
            0 <= i <= a@.len(),
            a@.len() == b@.len(),
            forall|k: int| 0 <= k < i ==> a@[k] == b@[k],
        decreases a@.len() - i,
    {
        if a[i] != b[i] {
            return false;
        }
        i = i + 1;
    }
    assert(a@ =~= b@);
    true
}

/// Whether `n` occurs anywhere inside `h`.
pub fn chars_contains(h: &[char], n: &[char]) -> (r: bool)
    ensures
        r == contains_seq(h@, n@),
{
    let hl = h.len();
    let nl = n.len();
    let mut i: usize = 0;
    while i <= hl && hl - i >= nl
        invariant
            0 <= i <= hl + 1,
            hl == h@.len(),
            nl == n@.len(),
            first_match_from(h@, n@, 0) == first_match_from(h@, n@, i as int),
        decreases hl - i,
    {
        let mut j: usize = 0;
        let mut all_eq: bool = true;
        while j < nl
            invariant
                0 <= j <= nl,
                hl == h@.len(),
                nl == n@.len(),
                i + nl <= hl,
                all_eq == (forall|k: int| 0 <= k < j ==> h@[i + k] == n@[k]),
            decreases nl - j,
        {
            if h[i + j] != n[j] {
                assert(h@[i + j] != n@[j as int]);
                all_eq = false;
                j = nl;
            } else {
                j = j + 1;
            }
        }
        if all_eq {
            assert(h@.subrange(i as int, i + nl as int) =~= n@);
            return true;
        }
        assert(h@.subrange(i as int, i + nl as int) != n@) by {
            assert(exists|k: int| 0 <= k < nl && h@[i + k] != n@[k]);
            let k = choose|k: int| 0 <= k < nl && h@[i + k] != n@[k];
            assert(h@.subrange(i as int, i + nl as int)[k] == h@[i + k]);
        }
        i = i + 1;
    }
    false
}

/// Index of the first occurrence of `n` inside `h` at or after `from`.
pub fn chars_find_from(h: &[char], n: &[char], from: usize) -> (r: Option<usize>)
    requires
        from <= h@.len(),
        n@.len() >= 1,
    ensures
        match r {
            Some(k) => first_match_from(h@, n@, from as int) == Some(k as int),
            None => first_match_from(h@, n@, from as int) is None,
        },
{
    let hl = h.len();
    let nl = n.len();
    let mut i: usize = from;
    while i <= hl && hl - i >= nl
        invariant
            from <= i <= hl + 1,
            hl == h@.len(),
            nl == n@.len(),
            nl >= 1,
            first_match_from(h@, n@, from as int) == first_match_from(h@, n@, i as int),
        decreases hl - i,
    {
        let mut j: usize = 0;
        let mut all_eq: bool = true;
        while j < nl
            invariant
                0 <= j <= nl,
                hl == h@.len(),
                nl == n@.len(),
                i + nl <= hl,
                all_eq == (forall|k: int| 0 <= k < j ==> h@[i + k] == n@[k]),
            decreases nl - j,
        {
            if h[i + j] != n[j] {
                assert(h@[i + j] != n@[j as int]);
                all_eq = false;
                j = nl;
            } else {
                j = j + 1;
            }
        }
        if all_eq {
            assert(h@.subrange(i as int, i + nl as int) =~= n@);
            return Some(i);
        }
        assert(h@.subrange(i as int, i + nl as int) != n@) by {
            assert(exists|k: int| 0 <= k < nl && h@[i + k] != n@[k]);
            let k = choose|k: int| 0 <= k < nl && h@[i + k] != n@[k];
            assert(h@.subrange(i as int, i + nl as int)[k] == h@[i + k]);
        }
        i = i + 1;
    }
    None
}

/// A fresh vector holding `v[a..b]`.
pub fn subrange_chars(v: &[char], a: usize, b: usize) -> (r: Vec<char>)
    requires
        a <= b <= v@.len(),
    ensures
        r@ == v@.subrange(a as int, b as int),
{
    let mut r: Vec<char> = Vec::new();
    let mut i: usize = a;
    while i < b
        invariant
            a <= i <= b <= v@.len(),
            r@ == v@.subrange(a as int, i as int),
        decreases b - i,
    {
        r.push(v[i]);
        assert(r@ =~= v@.subrange(a as int, i + 1));
        i = i + 1;
    }
    r
}

// ---------------------------------------------------------------------------
// Splitting on a separator character.
// ---------------------------------------------------------------------------
/// The pieces of `s` between occurrences of `c`, as `str::split` yields them
/// (an input without the separator yields one piece, the whole of `s`).
pub open spec fn split_on(s: Seq<char>, c: char) -> Seq<Seq<char>>
    decreases s.len(),
    via split_on_decreases
{
    let i = char_index_from(s, c, 0);
    if i == s.len() {
        seq![s]
    } else {
        seq![s.subrange(0, i)] + split_on(s.subrange(i + 1, s.len() as int), c)
    }
}

#[via_fn]
proof fn split_on_decreases(s: Seq<char>, c: char) {
    lemma_char_index_from(s, c, 0);
}

/// Splits `v` on the separator `c`.
pub fn split_chars(v: &[char], c: char) -> (r: Vec<Vec<char>>)
    ensures
        r.deep_view() == split_on(v@, c),
{
    let len = v.len();
    let mut done: Vec<Vec<char>> = Vec::new();
    let mut cur: Vec<char> = Vec::new();
    let mut start: usize = 0;
    let mut i: usize = 0;
    proof {
        assert(v@.subrange(0, len as int) =~= v@);
        assert(cur@ =~= v@.subrange(0, 0));
        assert(done.deep_view() + split_on(v@, c) =~= split_on(v@, c));
    }
    while i < len
        invariant
            0 <= start <= i <= len,
            len == v@.len(),
            cur@ == v@.subrange(start as int, i as int),
            forall|j: int| start <= j < i ==> v@[j] != c,
            split_on(v@, c) == done.deep_view() + split_on(
                v@.subrange(start as int, len as int),
                c,
            ),
        decreases len - i,
    {
        if v[i] == c {
            let ghost tail = v@.subrange(start as int, len as int);
            let ghost olddone = done.deep_view();
            proof {
                lemma_char_index_from(tail, c, 0);
                assert(tail[i - start] == c);
                assert(forall|j: int| 0 <= j < i - start ==> tail[j] != c);
                assert(char_index_from(tail, c, 0) == i - start);
                assert(tail.subrange(0, i - start) =~= cur@);
                assert(tail.subrange(i - start + 1, tail.len() as int) =~= v@.subrange(
                    i + 1,
                    len as int,
                ));
                assert(split_on(tail, c) == seq![cur@] + split_on(
                    v@.subrange(i + 1, len as int),
                    c,
                ));
            }
            done.push(cur);
            proof {
                assert(done.deep_view() =~~= olddone.push(cur@));
                assert(olddone.push(cur@) + split_on(v@.subrange(i + 1, len as int), c) =~~= olddone
                    + (seq![cur@] + split_on(v@.subrange(i + 1, len as int), c)));
            }
            cur = Vec::new();
            start = i + 1;
            assert(cur@ =~= v@.subrange(i + 1, i + 1));
        } else {
            cur.push(v[i]);
            assert(cur@ =~= v@.subrange(start as int, i + 1));
        }
        i = i + 1;
    }
    let ghost olddone = done.deep_view();
    proof {
        let tail = v@.subrange(start as int, len as int);
        lemma_char_index_from(tail, c, 0);
        assert(char_index_from(tail, c, 0) == tail.len());
        assert(split_on(tail, c) == seq![tail]);
        assert(cur@ == tail);
    }
    done.push(cur);
    proof {
        assert(done.deep_view() =~~= olddone.push(v@.subrange(start as int, len as int)));
        assert(olddone.push(v@.subrange(start as int, len as int)) =~~= olddone + seq![
            v@.subrange(start as int, len as int),
        ]);
    }
    done
}

// ---------------------------------------------------------------------------
// Lexicographic order on character sequences.
// ---------------------------------------------------------------------------
/// Strict lexicographic order by Unicode code point, the order in which
/// Rust compares strings.
pub open spec fn lex_lt(a: Seq<char>, b: Seq<char>) -> bool
    decreases a.len(),
{
    if b.len() == 0 {
        false
    } else if a.len() == 0 {
        true
    } else if a[0] != b[0] {
        (a[0] as u32) < (b[0] as u32)
    } else {
        lex_lt(a.subrange(1, a.len() as int), b.subrange(1, b.len() as int))
    }
}

/// Any two character sequences are equal or ordered one way.
pub proof fn lemma_lex_lt_connex(a: Seq<char>, b: Seq<char>)
    ensures
        a == b || lex_lt(a, b) || lex_lt(b, a),
    decreases a.len(),
{
    if a.len() == 0 || b.len() == 0 {
        if a.len() == 0 && b.len() == 0 {
            assert(a =~= b);
        }
    } else if a[0] != b[0] {
        if (a[0] as u32) == (b[0] as u32) {
            vstd::utf8::char_u32_cast(a[0], a[0] as u32);
            vstd::utf8::char_u32_cast(b[0], b[0] as u32);
        }
        assert((a[0] as u32) != (b[0] as u32));
    } else {
        lemma_lex_lt_connex(a.subrange(1, a.len() as int), b.subrange(1, b.len() as int));
        if a.subrange(1, a.len() as int) == b.subrange(1, b.len() as int) {
            assert(a.subrange(1, a.len() as int).len() == b.subrange(1, b.len() as int).len());
            assert(a.len() == b.len());
            assert forall|j: int| 0 <= j < a.len() implies a[j] == b[j] by {
                if j >= 1 {
                    assert(a[j] == a.subrange(1, a.len() as int)[j - 1]);
                    assert(b[j] == b.subrange(1, b.len() as int)[j - 1]);
                }
            }
            assert(a =~= b);
        }
    }
}

/// The order is irreflexive.
pub proof fn lemma_lex_lt_irrefl(a: Seq<char>)
    ensures
        !lex_lt(a, a),
    decreases a.len(),
{
    if a.len() > 0 {
        lemma_lex_lt_irrefl(a.subrange(1, a.len() as int));
    }
}

/// The order is transitive.
pub proof fn lemma_lex_lt_trans(a: Seq<char>, b: Seq<char>, c: Seq<char>)
    requires
        lex_lt(a, b),
        lex_lt(b, c),
    ensures
        lex_lt(a, c),
    decreases a.len(),
{
    if a.len() == 0 {
    } else {
        if b.len() > 0 && c.len() > 0 {
            if a[0] == b[0] && b[0] == c[0] {
                lemma_lex_lt_trans(
                    a.subrange(1, a.len() as int),
                    b.subrange(1, b.len() as int),
                    c.subrange(1, c.len() as int),
                );
            }
        }
    }
}

/// Executable lexicographic comparison.
pub fn chars_lt(a: &[char], b: &[char]) -> (r: bool)
    ensures
        r == lex_lt(a@, b@),
{
    let al = a.len();
    let bl = b.len();
    let mut i: usize = 0;
    proof {
        assert(a@.subrange(0, al as int) =~= a@);
        assert(b@.subrange(0, bl as int) =~= b@);
    }
    while i < al && i < bl
        invariant
            0 <= i,
            i <= al,
            i <= bl,
            al == a@.len(),
            bl == b@.len(),
            lex_lt(a@, b@) == lex_lt(
                a@.subrange(i as int, al as int),
                b@.subrange(i as int, bl as int),
            ),
            forall|k: int| 0 <= k < i ==> a@[k] == b@[k],
        decreases al - i,
    {
        let ghost sa = a@.subrange(i as int, al as int);
        let ghost sb = b@.subrange(i as int, bl as int);
        if a[i] != b[i] {
            assert(sa[0] == a@[i as int] && sb[0] == b@[i as int]);
            return (a[i] as u32) < (b[i] as u32);
        }
        proof {
            assert(sa[0] == sb[0]);
            assert(sa.subrange(1, sa.len() as int) =~= a@.subrange(i + 1, al as int));
            assert(sb.subrange(1, sb.len() as int) =~= b@.subrange(i + 1, bl as int));
        }
        i = i + 1;
    }
    proof {
        let sa = a@.subrange(i as int, al as int);
        let sb = b@.subrange(i as int, bl as int);
        assert(sa.len() == 0 || sb.len() == 0);
    }
    al < bl
}

// ---------------------------------------------------------------------------
// Conversions between strings and character vectors.
// ---------------------------------------------------------------------------
/// The characters of `s`, in order.
pub fn chars_of(s: &str) -> (r: Vec<char>)
    ensures
        r@ == s@,
{
    let n = s.unicode_len();
    let mut r: Vec<char> = Vec::new();
    let mut i: usize = 0;
    while i < n
        invariant
            0 <= i <= n,
            n == s@.len(),
            r@ == s@.subrange(0, i as int),
        decreases n - i,
    {
        r.push(s.get_char(i));
        assert(r@ =~= s@.subrange(0, i + 1));
        i = i + 1;
    }
    assert(r@ =~= s@);
    r
}

/// Relies on `String::push`: appends exactly the one character.
#[verifier::external_body]
fn push_char(s: &mut String, c: char)
    ensures
        final (s)@ == old(s)@.push(c),
{
    s.push(c);
}

/// A `String` holding exactly the characters of `v`.
pub fn string_of_chars(v: &[char]) -> (r: String)
    ensures
        r@ == v@,
{
    let mut r = String::new();
    let n = v.len();
    let mut i: usize = 0;
    while i < n
        invariant
            0 <= i <= n,
            n == v@.len(),
            r@ == v@.subrange(0, i as int),
        decreases n - i,
    {
        push_char(&mut r, v[i]);
        assert(r@ =~= v@.subrange(0, i + 1));
        i = i + 1;
    }
    assert(r@ =~= v@);
    r
}

/// The Unicode lowercase mapping that `str::to_lowercase` computes,
/// a function of the characters alone.
pub uninterp spec fn lower_of(s: Seq<char>) -> Seq<char>;

/// Relies on `str::to_lowercase`: the Unicode lowercase mapping of the
/// text, depending on the characters alone.
#[verifier::external_body]
pub(crate) fn lowercase(s: &str) -> (r: String)
    ensures
        r@ == lower_of(s@),
{
    s.to_lowercase()
}

} // verus!
