//! Merging candidate lists: lexicographic sorting and deduplication.

use crate::text::{
    chars_eq, chars_lt, chars_of, lemma_lex_lt_connex, lemma_lex_lt_irrefl, lemma_lex_lt_trans,
    lex_lt,
};
use vstd::prelude::*;

verus! {

/// Every element is lexicographically less than every later one; such a
/// sequence holds no duplicates.
pub open spec fn strictly_sorted(s: Seq<Seq<char>>) -> bool {
    forall|i: int, j: int| 0 <= i < j < s.len() ==> lex_lt(s[i], s[j])
}

/// `x` inserted into a sorted duplicate-free sequence, which stays so:
/// a value already present is not added again.
pub open spec fn insert_sorted(s: Seq<Seq<char>>, x: Seq<char>) -> Seq<Seq<char>>
    decreases s.len(),
{
    if s.len() == 0 {
        seq![x]
    } else if x == s[0] {
        s
    } else if lex_lt(x, s[0]) {
        seq![x] + s
    } else {
        seq![s[0]] + insert_sorted(s.drop_first(), x)
    }
}

/// The sorted duplicate-free sequence of the values of `s`.
pub open spec fn sort_dedup(s: Seq<Seq<char>>) -> Seq<Seq<char>>
    decreases s.len(),
{
    if s.len() == 0 {
        Seq::empty()
    } else {
        insert_sorted(sort_dedup(s.drop_last()), s.last())
    }
}

/// Inserting keeps the sequence strictly sorted, and its values are
/// exactly the old values together with `x`.
pub proof fn lemma_insert_sorted_props(s: Seq<Seq<char>>, x: Seq<char>)
    requires
        strictly_sorted(s),
    ensures
        strictly_sorted(insert_sorted(s, x)),
        forall|y: Seq<char>| #[trigger] insert_sorted(s, x).contains(y) <==> (s.contains(y) || y
            == x),
    decreases s.len(),
{
    let r = insert_sorted(s, x);
    if s.len() == 0 {
        assert(r == seq![x]);
        assert(r[0] == x);
        assert forall|y: Seq<char>| #[trigger] r.contains(y) <==> (s.contains(y) || y == x) by {
            if y == x {
                assert(r[0] == y);
                assert(r.contains(y));
            }
            if r.contains(y) {
                let i = choose|i: int| 0 <= i < r.len() && r[i] == y;
                assert(i == 0);
            }
        }
    } else if x == s[0] {
        assert(r == s);
        assert(s[0] == x);
        assert(s.contains(x));
    } else if lex_lt(x, s[0]) {
        assert(r == seq![x] + s);
        assert(r.len() == s.len() + 1);
        assert(r[0] == x);
        assert(forall|k: int| 1 <= k < r.len() ==> r[k] == s[k - 1]);
        assert forall|i: int, j: int| 0 <= i < j < r.len() implies lex_lt(r[i], r[j]) by {
            if i == 0 {
                if j > 1 {
                    lemma_lex_lt_trans(x, s[0], s[j - 1]);
                }
            }
        }
        assert forall|y: Seq<char>| #[trigger] r.contains(y) <==> (s.contains(y) || y == x) by {
            if r.contains(y) {
                let i = choose|i: int| 0 <= i < r.len() && r[i] == y;
                if i > 0 {
                    assert(s[i - 1] == y);
                    assert(s.contains(y));
                }
            }
            if y == x {
                assert(r[0] == y);
                assert(r.contains(y));
            }
            if s.contains(y) {
                let i = choose|i: int| 0 <= i < s.len() && s[i] == y;
                assert(r[i + 1] == y);
                assert(r.contains(y));
            }
        }
    } else {
        lemma_lex_lt_connex(x, s[0]);
        assert(lex_lt(s[0], x));
        let tail = s.drop_first();
        assert(forall|k: int| 0 <= k < tail.len() ==> tail[k] == s[k + 1]);
        assert(strictly_sorted(tail));
        lemma_insert_sorted_props(tail, x);
        let rt = insert_sorted(tail, x);
        assert(r == seq![s[0]] + rt);
        assert(r.len() == rt.len() + 1);
        assert(r[0] == s[0]);
        assert(forall|k: int| 1 <= k < r.len() ==> r[k] == rt[k - 1]);
        assert forall|i: int, j: int| 0 <= i < j < r.len() implies lex_lt(r[i], r[j]) by {
            if i == 0 {
                assert(rt.contains(rt[j - 1]));
                if tail.contains(rt[j - 1]) {
                    let k = choose|k: int| 0 <= k < tail.len() && tail[k] == rt[j - 1];
                    assert(tail[k] == s[k + 1]);
                    assert(lex_lt(s[0], s[k + 1]));
                } else {
                    assert(rt[j - 1] == x);
                }
            }
        }
        assert forall|y: Seq<char>| #[trigger] r.contains(y) <==> (s.contains(y) || y == x) by {
            if r.contains(y) {
                let i = choose|i: int| 0 <= i < r.len() && r[i] == y;
                if i == 0 {
                    assert(s[0] == y);
                    assert(s.contains(y));
                } else {
                    assert(rt.contains(rt[i - 1]));
                    if tail.contains(y) {
                        let k = choose|k: int| 0 <= k < tail.len() && tail[k] == y;
                        assert(s[k + 1] == y);
                        assert(s.contains(y));
                    }
                }
            }
            if y == x {
                assert(rt.contains(y));
                let k = choose|k: int| 0 <= k < rt.len() && rt[k] == y;
                assert(r[k + 1] == y);
                assert(r.contains(y));
            }
            if s.contains(y) {
                let i = choose|i: int| 0 <= i < s.len() && s[i] == y;
                if i == 0 {
                    assert(r[0] == y);
                    assert(r.contains(y));
                } else {
                    assert(tail[i - 1] == y);
                    assert(tail.contains(y));
                    assert(rt.contains(y));
                    let k = choose|k: int| 0 <= k < rt.len() && rt[k] == y;
                    assert(r[k + 1] == y);
                    assert(r.contains(y));
                }
            }
        }
    }
}

/// The result of `sort_dedup` is strictly sorted and holds exactly the
/// values of its input.
pub proof fn lemma_sort_dedup_props(s: Seq<Seq<char>>)
    ensures
        strictly_sorted(sort_dedup(s)),
        forall|y: Seq<char>| #[trigger] sort_dedup(s).contains(y) <==> s.contains(y),
    decreases s.len(),
{
    if s.len() == 0 {
    } else {
        let tail = s.drop_last();
        lemma_sort_dedup_props(tail);
        lemma_insert_sorted_props(sort_dedup(tail), s.last());
        assert forall|y: Seq<char>| #[trigger] sort_dedup(s).contains(y) <==> s.contains(y) by {
            if sort_dedup(s).contains(y) {
                if tail.contains(y) {
                    let i = choose|i: int| 0 <= i < tail.len() && tail[i] == y;
                    assert(s[i] == y);
                    assert(s.contains(y));
                } else {
                    assert(y == s.last());
                    assert(s[s.len() - 1] == y);
                    assert(s.contains(y));
                }
            }
            if s.contains(y) {
                let i = choose|i: int| 0 <= i < s.len() && s[i] == y;
                if i == s.len() - 1 {
                    assert(y == s.last());
                } else {
                    assert(tail[i] == y);
                    assert(tail.contains(y));
                }
                assert(sort_dedup(s).contains(y));
            }
        }
    }
}

/// A strictly sorted sequence holds no value twice.
pub proof fn lemma_strictly_sorted_distinct(s: Seq<Seq<char>>, i: int, j: int)
    requires
        strictly_sorted(s),
        0 <= i < j < s.len(),
    ensures
        s[i] != s[j],
{
    if s[i] == s[j] {
        lemma_lex_lt_irrefl(s[i]);
    }
}

/// Where the scan stopped determines what `insert_sorted` yields: an equal
/// element leaves the sequence unchanged; a strictly greater element at
/// the stop makes room there; a scan past the end appends.
proof fn lemma_insert_sorted_at(s: Seq<Seq<char>>, x: Seq<char>, j: int)
    requires
        strictly_sorted(s),
        0 <= j <= s.len(),
        forall|k: int| 0 <= k < j ==> lex_lt(s[k], x),
    ensures
        j < s.len() && x == s[j] ==> insert_sorted(s, x) == s,
        j < s.len() && lex_lt(x, s[j]) ==> insert_sorted(s, x) == s.subrange(0, j) + seq![x]
            + s.subrange(j, s.len() as int),
        j == s.len() ==> insert_sorted(s, x) == s + seq![x],
    decreases j,
{
    lemma_lex_lt_irrefl(x);
    if j == 0 {
        if s.len() == 0 {
            assert(insert_sorted(s, x) =~= s + seq![x]);
        } else {
            if x == s[0] {
            } else if lex_lt(x, s[0]) {
                assert(s.subrange(0, 0) =~= Seq::<Seq<char>>::empty());
                assert(s.subrange(0, s.len() as int) =~= s);
                assert(insert_sorted(s, x) =~= s.subrange(0, 0) + seq![x] + s.subrange(
                    0,
                    s.len() as int,
                ));
            }
        }
    } else {
        assert(lex_lt(s[0], x));
        if x == s[0] {
            lemma_lex_lt_irrefl(x);
        }
        let tail = s.drop_first();
        assert(forall|k: int| 0 <= k < tail.len() ==> tail[k] == s[k + 1]);
        assert(strictly_sorted(tail));
        if lex_lt(x, s[0]) {
            lemma_lex_lt_trans(s[0], x, s[0]);
            lemma_lex_lt_irrefl(s[0]);
        }
        lemma_insert_sorted_at(tail, x, j - 1);
        let rt = insert_sorted(tail, x);
        assert(insert_sorted(s, x) == seq![s[0]] + rt);
        if j - 1 < tail.len() && x == tail[j - 1] {
            assert(seq![s[0]] + tail =~= s);
        } else if j - 1 < tail.len() && lex_lt(x, tail[j - 1]) {
            assert(seq![s[0]] + (tail.subrange(0, j - 1) + seq![x] + tail.subrange(
                j - 1,
                tail.len() as int,
            )) =~= s.subrange(0, j) + seq![x] + s.subrange(j, s.len() as int));
        } else if j - 1 == tail.len() {
            assert(seq![s[0]] + (tail + seq![x]) =~= s + seq![x]);
        }
    }
}

/// Inserts one candidate into a sorted duplicate-free list, keeping it so.
fn insert_candidate(out: &mut Vec<String>, x: String)
    requires
        strictly_sorted(old(out).deep_view()),
    ensures
        final (out).deep_view() == insert_sorted(old(out).deep_view(), x@),
{
    let ghost s = out.deep_view();
    let xc = chars_of(x.as_str());
    let n = out.len();
    let mut j: usize = 0;
    while j < n
        invariant
            0 <= j <= n,
            n == out@.len(),
            s == old(out).deep_view(),
            out.deep_view() == s,
            strictly_sorted(s),
            xc@ == x@,
            forall|k: int| 0 <= k < j ==> lex_lt(s[k], x@),
        decreases n - j,
    {
        let jc = chars_of(out[j].as_str());
        assert(jc@ == s[j as int]);
        if chars_eq(&xc, &jc) {
            proof {
                assert(s.len() == n);
                assert(x@ == s[j as int]);
                lemma_insert_sorted_at(s, x@, j as int);
                assert(insert_sorted(s, x@) == s);
                assert(out.deep_view() == s);
            }
            return ;
        }
        if chars_lt(&xc, &jc) {
            let ghost before = out.deep_view();
            out.insert(j, x);
            proof {
                lemma_insert_sorted_at(s, x@, j as int);
                assert(out.deep_view() =~~= s.subrange(0, j as int) + seq![x@] + s.subrange(
                    j as int,
                    s.len() as int,
                ));
            }
            return ;
        }
        proof {
            lemma_lex_lt_connex(x@, s[j as int]);
        }
        j = j + 1;
    }
    out.push(x);
    proof {
        lemma_insert_sorted_at(s, x@, n as int);
        assert(out.deep_view() =~~= s + seq![x@]);
    }
}

/// The sorted, duplicate-free list of the candidate values.
pub fn sorted_dedup(items: &Vec<String>) -> (r: Vec<String>)
    ensures
        r.deep_view() == sort_dedup(items.deep_view()),
        strictly_sorted(r.deep_view()),
{
    let ghost idv = items.deep_view();
    let n = items.len();
    let mut out: Vec<String> = Vec::new();
    let mut i: usize = 0;
    proof {
        assert(idv.subrange(0, 0) =~= Seq::<Seq<char>>::empty());
        assert(out.deep_view() =~= sort_dedup(idv.subrange(0, 0)));
    }
    while i < n
        invariant
            0 <= i <= n,
            n == items@.len(),
            items.deep_view() == idv,
            out.deep_view() == sort_dedup(idv.subrange(0, i as int)),
            strictly_sorted(out.deep_view()),
        decreases n - i,
    {
        proof {
            lemma_sort_dedup_props(idv.subrange(0, i as int));
        }
        let x = items[i].clone();
        assert(x@ == idv[i as int]);
        insert_candidate(&mut out, x);
        proof {
            let prefix = idv.subrange(0, i + 1);
            assert(prefix.drop_last() =~= idv.subrange(0, i as int));
            assert(prefix.last() == idv[i as int]);
            assert(out.deep_view() == sort_dedup(prefix));
            lemma_sort_dedup_props(prefix);
        }
        i = i + 1;
    }
    proof {
        assert(idv.subrange(0, n as int) =~= idv);
    }
    out
}

/// A fresh list holding the same strings.
pub fn clone_strings(v: &Vec<String>) -> (r: Vec<String>)
    ensures
        r.deep_view() == v.deep_view(),
{
    let n = v.len();
    let mut r: Vec<String> = Vec::new();
    let mut i: usize = 0;
    while i < n
        invariant
            0 <= i <= n,
            n == v@.len(),
            r.deep_view() == v.deep_view().subrange(0, i as int),
        decreases n - i,
    {
        let x = v[i].clone();
        assert(x@ == v.deep_view()[i as int]);
        let ghost r0 = r.deep_view();
        r.push(x);
        proof {
            assert(r.deep_view() =~~= r0.push(v.deep_view()[i as int]));
            assert(r0.push(v.deep_view()[i as int]) =~~= v.deep_view().subrange(0, i + 1));
        }
        i = i + 1;
    }
    assert(r.deep_view() =~~= v.deep_view());
    r
}

} // verus!
