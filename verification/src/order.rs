//! The lexicographic order of texts, and sorting by it.
//!
//! Texts compare character by character by code point, a proper prefix
//! coming first: the order `str`'s `Ord` gives (it compares UTF-8 bytes,
//! which order like code points).

use vstd::prelude::*;

use crate::text::{chars_of, str_eq};

verus! {

/// Whether `a` sorts at or before `b`.
pub open spec fn text_le(a: Seq<char>, b: Seq<char>) -> bool
    decreases a.len(),
{
    if a.len() == 0 {
        true
    } else if b.len() == 0 {
        false
    } else if a[0] == b[0] {
        text_le(a.drop_first(), b.drop_first())
    } else {
        (a[0] as int) < (b[0] as int)
    }
}

/// Any two texts are ordered one way or the other.
pub proof fn lemma_text_le_total(a: Seq<char>, b: Seq<char>)
    ensures
        text_le(a, b) || text_le(b, a),
    decreases a.len(),
{
    if a.len() > 0 && b.len() > 0 && a[0] == b[0] {
        lemma_text_le_total(a.drop_first(), b.drop_first());
    }
}

/// The order is transitive.
pub proof fn lemma_text_le_trans(a: Seq<char>, b: Seq<char>, c: Seq<char>)
    requires
        text_le(a, b),
        text_le(b, c),
    ensures
        text_le(a, c),
    decreases a.len(),
{
    if a.len() > 0 && b.len() > 0 && c.len() > 0 && a[0] == b[0] && b[0] == c[0] {
        lemma_text_le_trans(a.drop_first(), b.drop_first(), c.drop_first());
    }
}

/// The order is reflexive.
pub proof fn lemma_text_le_refl(a: Seq<char>)
    ensures
        text_le(a, a),
    decreases a.len(),
{
    if a.len() > 0 {
        lemma_text_le_refl(a.drop_first());
    }
}

/// The order is antisymmetric.
pub proof fn lemma_text_le_antisym(a: Seq<char>, b: Seq<char>)
    requires
        text_le(a, b),
        text_le(b, a),
    ensures
        a == b,
    decreases a.len(),
{
    if a.len() > 0 && b.len() > 0 {
        if a[0] == b[0] {
            lemma_text_le_antisym(a.drop_first(), b.drop_first());
            assert forall|q: int| 0 <= q < a.len() implies a[q] == b[q] by {
                if q > 0 {
                    assert(a[q] == a.drop_first()[q - 1]);
                    assert(b[q] == b.drop_first()[q - 1]);
                }
            }
            assert(a =~= b);
        } else {
            assert((a[0] as int) < (b[0] as int));
            assert((b[0] as int) < (a[0] as int));
        }
    } else if a.len() == 0 && b.len() == 0 {
        assert(a =~= b);
    }
}

/// Compare two texts.
pub fn str_le(a: &str, b: &str) -> (r: bool)
    ensures
        r == text_le(a@, b@),
{
    let x = chars_of(a);
    let y = chars_of(b);
    let mut i: usize = 0;
    assert(x@.skip(0) =~= x@);
    assert(y@.skip(0) =~= y@);
    while i < x.len() && i < y.len() && x[i] == y[i]
        invariant
            i <= x@.len(),
            i <= y@.len(),
            text_le(a@, b@) == text_le(x@.skip(i as int), y@.skip(i as int)),
            x@ == a@,
            y@ == b@,
        decreases x@.len() - i,
    {
        assert(x@.skip(i as int).drop_first() =~= x@.skip(i + 1));
        assert(y@.skip(i as int).drop_first() =~= y@.skip(i + 1));
        i = i + 1;
    }
    if i == x.len() {
        assert(x@.skip(i as int).len() == 0);
        true
    } else if i == y.len() {
        assert(y@.skip(i as int).len() == 0);
        false
    } else {
        let p = x[i];
        let q = y[i];
        let ghost xs = x@.skip(i as int);
        let ghost ys = y@.skip(i as int);
        assert(xs[0] == x@[i as int]);
        assert(ys[0] == y@[i as int]);
        assert(xs[0] != ys[0]);
        assert(text_le(xs, ys) == ((xs[0] as int) < (ys[0] as int)));
        p < q
    }
}

/// Whether text `a` sorts strictly before `b` in `str`'s order.
pub open spec fn text_less(a: Seq<char>, b: Seq<char>) -> bool {
    text_le(a, b) && a != b
}

/// `text_less` is a strict total order: irreflexive, transitive and total.
pub proof fn lemma_text_order(a: Seq<char>, b: Seq<char>, c: Seq<char>)
    ensures
        !text_less(a, a),
        text_less(a, b) && text_less(b, c) ==> text_less(a, c),
        a != b ==> text_less(a, b) || text_less(b, a),
{
    lemma_text_le_total(a, b);
    if text_less(a, b) && text_less(b, c) {
        lemma_text_le_trans(a, b, c);
        if a == c {
            lemma_text_le_antisym(a, b);
        }
    }
}

/// Whether `a` sorts strictly before `b`.
pub fn text_lt(a: &str, b: &str) -> (r: bool)
    ensures
        r == text_less(a@, b@),
{
    str_le(a, b) && !str_eq(a, b)
}

/// Whether the texts are in non-decreasing order.
pub open spec fn sorted(s: Seq<Seq<char>>) -> bool {
    forall|i: int, j: int| 0 <= i < j < s.len() ==> text_le(#[trigger] s[i], #[trigger] s[j])
}

/// The views of strings.
pub open spec fn views(v: Seq<String>) -> Seq<Seq<char>> {
    v.map_values(|s: String| s@)
}

/// Sort strings in non-decreasing order (a stable insertion sort): the
/// result holds the same strings, in order.
pub fn sort_strings(v: Vec<String>) -> (r: Vec<String>)
    ensures
        sorted(views(r@)),
        views(r@).to_multiset() == views(v@).to_multiset(),
        r@.len() == v@.len(),
{
    let mut out: Vec<String> = Vec::new();
    let mut i: usize = 0;
    proof {
        assert(views(v@).take(0) =~= Seq::<Seq<char>>::empty());
        assert(views(out@) =~= Seq::<Seq<char>>::empty());
    }
    while i < v.len()
        invariant
            i <= v@.len(),
            sorted(views(out@)),
            views(out@).to_multiset() == views(v@).take(i as int).to_multiset(),
            out@.len() == i,
        decreases v@.len() - i,
    {
        let x = v[i].clone();
        let mut j: usize = 0;
        while j < out.len() && str_le(out[j].as_str(), x.as_str())
            invariant
                j <= out@.len(),
                forall|k: int| 0 <= k < j ==> text_le(#[trigger] views(out@)[k], x@),
            decreases out@.len() - j,
        {
            j = j + 1;
        }
        let ghost before = views(out@);
        proof {
            if j < out@.len() {
                lemma_text_le_total(x@, before[j as int]);
            }
        }
        out.insert(j, x);
        proof {
            let after = views(out@);
            assert(after =~= before.insert(j as int, x@));
            assert forall|a: int, b: int| 0 <= a < b < after.len() implies text_le(
                #[trigger] after[a],
                #[trigger] after[b],
            ) by {
                if b < j {
                    assert(after[a] == before[a] && after[b] == before[b]);
                } else if b == j {
                    assert(after[a] == before[a]);
                } else if a == j {
                    assert(after[b] == before[b - 1]);
                    if b - 1 > j {
                        assert(text_le(before[j as int], before[b - 1]));
                        lemma_text_le_trans(x@, before[j as int], before[b - 1]);
                    }
                } else if a < j {
                    assert(after[a] == before[a] && after[b] == before[b - 1]);
                } else {
                    assert(after[a] == before[a - 1] && after[b] == before[b - 1]);
                }
            }
            vstd::seq_lib::to_multiset_insert(before, j as int, x@);
            let t = views(v@).take(i + 1);
            assert(t =~= views(v@).take(i as int).push(x@));
            vstd::seq_lib::to_multiset_build(views(v@).take(i as int), x@);
        }
        i = i + 1;
    }
    proof {
        assert(views(v@).take(v@.len() as int) =~= views(v@));
    }
    out
}

} // verus!
