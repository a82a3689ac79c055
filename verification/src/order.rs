//! The order in which rows are locked: texts sorted by their UTF-8 bytes,
//! which is the order of `str`'s `Ord`.

use vstd::prelude::*;
use vstd::string::StringSliceAdditionalSpecFns;
use vstd::utf8::{decode_utf8, encode_utf8};

verus! {

/// Lexicographic order of byte strings: a proper prefix comes first.
pub open spec fn bytes_less(a: Seq<u8>, b: Seq<u8>) -> bool
    decreases a.len(),
{
    if a.len() == 0 {
        b.len() > 0
    } else if b.len() == 0 {
        false
    } else if a[0] < b[0] {
        true
    } else if a[0] > b[0] {
        false
    } else {
        bytes_less(a.drop_first(), b.drop_first())
    }
}

/// The order of texts: that of their UTF-8 bytes.
pub open spec fn text_less(a: Seq<char>, b: Seq<char>) -> bool {
    bytes_less(encode_utf8(a), encode_utf8(b))
}

/// Each text comes strictly before every later one.
pub open spec fn strictly_sorted(s: Seq<Seq<char>>) -> bool {
    forall|i: int, j: int| 0 <= i < j < s.len() ==> text_less(#[trigger] s[i], #[trigger] s[j])
}

pub proof fn lemma_bytes_less_transitive(a: Seq<u8>, b: Seq<u8>, c: Seq<u8>)
    requires
        bytes_less(a, b),
        bytes_less(b, c),
    ensures
        bytes_less(a, c),
    decreases a.len(),
{
    if a.len() > 0 && b.len() > 0 && c.len() > 0 && a[0] == b[0] && b[0] == c[0] {
        lemma_bytes_less_transitive(a.drop_first(), b.drop_first(), c.drop_first());
    }
}

pub proof fn lemma_bytes_less_total(a: Seq<u8>, b: Seq<u8>)
    ensures
        bytes_less(a, b) || a == b || bytes_less(b, a),
    decreases a.len(),
{
    if a.len() == 0 {
        if b.len() == 0 {
            assert(a =~= b);
        }
    } else if b.len() > 0 && a[0] == b[0] {
        lemma_bytes_less_total(a.drop_first(), b.drop_first());
        if a.drop_first() == b.drop_first() {
            assert(a.drop_first().len() == b.drop_first().len());
            assert(a.len() == b.len());
            assert forall|i: int| 0 <= i < a.len() implies a[i] == b[i] by {
                if i > 0 {
                    assert(a[i] == a.drop_first()[i - 1]);
                    assert(b[i] == b.drop_first()[i - 1]);
                }
            }
            assert(a =~= b);
        }
    }
}

pub proof fn lemma_bytes_less_irreflexive(a: Seq<u8>)
    ensures
        !bytes_less(a, a),
    decreases a.len(),
{
    if a.len() > 0 {
        lemma_bytes_less_irreflexive(a.drop_first());
    }
}

pub proof fn lemma_text_less_transitive(a: Seq<char>, b: Seq<char>, c: Seq<char>)
    requires
        text_less(a, b),
        text_less(b, c),
    ensures
        text_less(a, c),
{
    lemma_bytes_less_transitive(encode_utf8(a), encode_utf8(b), encode_utf8(c));
}

pub proof fn lemma_text_less_total(a: Seq<char>, b: Seq<char>)
    ensures
        text_less(a, b) || a == b || text_less(b, a),
{
    broadcast use vstd::utf8::encode_utf8_decode_utf8;

    lemma_bytes_less_total(encode_utf8(a), encode_utf8(b));
    assert(decode_utf8(encode_utf8(a)) == a);
    assert(decode_utf8(encode_utf8(b)) == b);
}

pub proof fn lemma_text_less_irreflexive(a: Seq<char>)
    ensures
        !text_less(a, a),
{
    lemma_bytes_less_irreflexive(encode_utf8(a));
}

/// Whether `a` comes strictly before `b`.
pub fn text_before(a: &String, b: &String) -> (r: bool)
    ensures
        r == text_less(a@, b@),
{
    let x = a.as_str().as_bytes();
    let y = b.as_str().as_bytes();
    let ghost xs = x@;
    let ghost ys = y@;
    let mut i: usize = 0;
    assert(xs.skip(0) =~= xs);
    assert(ys.skip(0) =~= ys);
    while i < x.len() && i < y.len() && x[i] == y[i]
        invariant
            xs == x@,
            ys == y@,
            xs == encode_utf8(a@),
            ys == encode_utf8(b@),
            i <= xs.len(),
            i <= ys.len(),
            bytes_less(xs, ys) == bytes_less(xs.skip(i as int), ys.skip(i as int)),
        decreases xs.len() - i,
    {
        assert(xs.skip(i as int).drop_first() =~= xs.skip(i + 1));
        assert(ys.skip(i as int).drop_first() =~= ys.skip(i + 1));
        i = i + 1;
    }
    if i == x.len() {
        i < y.len()
    } else if i == y.len() {
        false
    } else {
        x[i] < y[i]
    }
}

/// Two strictly sorted lists with the same elements are the same list.
pub proof fn lemma_sorted_determined(a: Seq<Seq<char>>, b: Seq<Seq<char>>)
    requires
        strictly_sorted(a),
        strictly_sorted(b),
        forall|t: Seq<char>| a.contains(t) <==> b.contains(t),
    ensures
        a == b,
    decreases a.len(),
{
    if a.len() == 0 {
        if b.len() > 0 {
            assert(b.contains(b[0]));
        }
        assert(a =~= b);
    } else {
        if b.len() == 0 {
            assert(a.contains(a[0]));
        }
        if a[0] != b[0] {
            assert(a.contains(a[0]));
            let k = choose|k: int| 0 <= k < b.len() && b[k] == a[0];
            assert(b.contains(b[0]));
            let m = choose|m: int| 0 <= m < a.len() && a[m] == b[0];
            assert(text_less(b[0], b[k]));
            assert(text_less(a[0], a[m]));
            lemma_text_less_transitive(a[0], b[0], a[0]);
            lemma_text_less_irreflexive(a[0]);
        }
        let a1 = a.drop_first();
        let b1 = b.drop_first();
        assert forall|i: int, j: int| 0 <= i < j < a1.len() implies text_less(
            #[trigger] a1[i],
            #[trigger] a1[j],
        ) by {
            assert(text_less(a[i + 1], a[j + 1]));
        }
        assert forall|i: int, j: int| 0 <= i < j < b1.len() implies text_less(
            #[trigger] b1[i],
            #[trigger] b1[j],
        ) by {
            assert(text_less(b[i + 1], b[j + 1]));
        }
        assert forall|t: Seq<char>| a1.contains(t) <==> b1.contains(t) by {
            if a1.contains(t) {
                let m = choose|m: int| 0 <= m < a1.len() && a1[m] == t;
                assert(a[m + 1] == t);
                assert(text_less(a[0], a[m + 1]));
                lemma_text_less_irreflexive(t);
                assert(a.contains(t));
                let k = choose|k: int| 0 <= k < b.len() && b[k] == t;
                assert(k != 0);
                assert(b1[k - 1] == t);
            }
            if b1.contains(t) {
                let m = choose|m: int| 0 <= m < b1.len() && b1[m] == t;
                assert(b[m + 1] == t);
                assert(text_less(b[0], b[m + 1]));
                lemma_text_less_irreflexive(t);
                assert(b.contains(t));
                let k = choose|k: int| 0 <= k < a.len() && a[k] == t;
                assert(k != 0);
                assert(a1[k - 1] == t);
            }
        }
        lemma_sorted_determined(a1, b1);
        assert(a.len() == b.len());
        assert forall|i: int| 0 <= i < a.len() implies a[i] == b[i] by {
            if i > 0 {
                assert(a[i] == a1[i - 1]);
                assert(b[i] == b1[i - 1]);
            }
        }
        assert(a =~= b);
    }
}

/// A list with one more text contains what the list contains and that text.
pub proof fn lemma_contains_after_push(s: Seq<Seq<char>>, x: Seq<char>, t: Seq<char>)
    ensures
        s.push(x).contains(t) <==> (s.contains(t) || t == x),
{
    if s.push(x).contains(t) {
        let w = choose|w: int| 0 <= w < s.len() + 1 && #[trigger] s.push(x)[w] == t;
        if w < s.len() {
            assert(s[w] == t);
        }
    }
    if s.contains(t) {
        let w = choose|w: int| 0 <= w < s.len() && #[trigger] s[w] == t;
        assert(s.push(x)[w] == t);
    }
    if t == x {
        assert(s.push(x)[s.len() as int] == t);
    }
}

proof fn lemma_prefix_contains(s: Seq<Seq<char>>, n: int, t: Seq<char>)
    requires
        0 <= n < s.len(),
    ensures
        s.take(n + 1).contains(t) <==> (s.take(n).contains(t) || t == s[n]),
{
    if s.take(n + 1).contains(t) {
        let w = choose|w: int| 0 <= w < n + 1 && #[trigger] s.take(n + 1)[w] == t;
        if w < n {
            assert(s.take(n)[w] == t);
        }
    }
    if s.take(n).contains(t) {
        let w = choose|w: int| 0 <= w < n && #[trigger] s.take(n)[w] == t;
        assert(s.take(n + 1)[w] == t);
    }
    if t == s[n] {
        assert(s.take(n + 1)[n] == t);
    }
}

/// The distinct texts of `items`, in strictly increasing order.
pub fn sorted_unique(items: &Vec<String>) -> (r: Vec<String>)
    ensures
        strictly_sorted(r.deep_view()),
        forall|t: Seq<char>| r.deep_view().contains(t) <==> items.deep_view().contains(t),
{
    let mut out: Vec<String> = Vec::new();
    let mut n: usize = 0;
    while n < items.len()
        invariant
            n <= items@.len(),
            strictly_sorted(out.deep_view()),
            forall|t: Seq<char>|
                out.deep_view().contains(t) <==> items.deep_view().take(n as int).contains(t),
        decreases items@.len() - n,
    {
        let x = &items[n];
        let ghost old_view = out.deep_view();
        let mut p: usize = 0;
        while p < out.len() && text_before(&out[p], x)
            invariant
                p <= out@.len(),
                old_view == out.deep_view(),
                forall|q: int| 0 <= q < p ==> text_less(#[trigger] old_view[q], x@),
            decreases out@.len() - p,
        {
            p = p + 1;
        }
        assert(items.deep_view().take(n + 1) =~= items.deep_view().take(n as int).push(x@));
        if p < out.len() && out[p] == *x {
            assert(old_view[p as int] == x@);
            assert forall|t: Seq<char>|
                out.deep_view().contains(t) <==> items.deep_view().take(n + 1).contains(
                    t,
                ) by {
                lemma_prefix_contains(items.deep_view(), n as int, t);
                if t == x@ {
                    assert(old_view[p as int] == t);
                }
            }
        } else {
            proof {
                if p < out@.len() {
                    lemma_text_less_total(old_view[p as int], x@);
                }
                assert forall|j: int| p <= j < old_view.len() implies text_less(
                    x@,
                    #[trigger] old_view[j],
                ) by {
                    if j > p {
                        lemma_text_less_transitive(x@, old_view[p as int], old_view[j]);
                    }
                }
            }
            out.insert(p, x.clone());
            let ghost new_view = out.deep_view();
            assert(new_view =~= old_view.insert(p as int, x@));
            assert forall|i: int, j: int| 0 <= i < j < new_view.len() implies text_less(
                #[trigger] new_view[i],
                #[trigger] new_view[j],
            ) by {
                if j < p {
                    assert(text_less(old_view[i], old_view[j]));
                } else if j == p {
                } else if i < p {
                    assert(new_view[j] == old_view[j - 1]);
                    lemma_text_less_transitive(old_view[i], x@, old_view[j - 1]);
                } else if i == p {
                } else {
                    assert(text_less(old_view[i - 1], old_view[j - 1]));
                }
            }
            assert forall|t: Seq<char>|
                new_view.contains(t) <==> items.deep_view().take(n + 1).contains(t) by {
                lemma_prefix_contains(items.deep_view(), n as int, t);
                if new_view.contains(t) {
                    let w = choose|w: int| 0 <= w < new_view.len() && #[trigger] new_view[w] == t;
                    if w < p {
                        assert(old_view[w] == t);
                    } else if w > p {
                        assert(old_view[w - 1] == t);
                    }
                }
                if old_view.contains(t) {
                    let w = choose|w: int| 0 <= w < old_view.len() && #[trigger] old_view[w] == t;
                    if w < p {
                        assert(new_view[w] == t);
                    } else {
                        assert(new_view[w + 1] == t);
                    }
                }
                if t == x@ {
                    assert(new_view[p as int] == t);
                }
            }
        }
        n = n + 1;
    }
    assert(items.deep_view().take(n as int) =~= items.deep_view());
    out
}

} // verus!
