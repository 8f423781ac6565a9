//! Laws of the environment layer: what one install adds, one uninstall
//! removes; re-applying a delta changes nothing; replaying snapshots in
//! reverse restores every variable.

use vstd::prelude::*;

use crate::env::{
    canon_on, kept, kept_on, list_contains, list_contains_on, merge_text, offer_text,
    offer_text_on, remove_text, remove_text_on, segments, segments_on, sep, sep_of, EnvDelta,
};
use crate::fs_path::Platform;
use crate::text::{is_blank, is_ws, lemma_blank_trim, lemma_split_nonempty, split_on, trim};

verus! {

/// Splitting a joined text splits each side.
pub proof fn lemma_split_concat(a: Seq<char>, b: Seq<char>, c: char)
    ensures
        split_on(a + seq![c] + b, c) == split_on(a, c) + split_on(b, c),
    decreases a.len(),
{
    let s = a + seq![c] + b;
    if a.len() == 0 {
        assert(s[0] == c);
        assert(s.drop_first() =~= b);
        assert(split_on(a, c) =~= seq![Seq::<char>::empty()]);
    } else {
        let a1 = a.drop_first();
        lemma_split_concat(a1, b, c);
        assert(s.drop_first() =~= a1 + seq![c] + b);
        assert(s[0] == a[0]);
        lemma_split_nonempty(a1, c);
        lemma_split_nonempty(b, c);
        if a[0] == c {
            assert(split_on(s, c) =~= split_on(a, c) + split_on(b, c));
        } else {
            let rest = split_on(a1, c) + split_on(b, c);
            assert(rest[0] == split_on(a1, c)[0]);
            assert(split_on(s, c) == rest.update(0, seq![a[0]] + rest[0]));
            assert(split_on(a, c) == split_on(a1, c).update(0, seq![a[0]] + split_on(a1, c)[0]));
            assert(split_on(s, c) =~= split_on(a, c) + split_on(b, c));
        }
    }
}

/// A text without the separator is a single piece.
pub proof fn lemma_split_single(a: Seq<char>, c: char)
    requires
        !a.contains(c),
    ensures
        split_on(a, c) == seq![a],
    decreases a.len(),
{
    if a.len() > 0 {
        let a1 = a.drop_first();
        assert(!a1.contains(c)) by {
            if a1.contains(c) {
                let k = choose|k: int| 0 <= k < a1.len() && a1[k] == c;
                assert(a[k + 1] == c);
            }
        }
        lemma_split_single(a1, c);
        assert(a[0] != c);
        assert(seq![a[0]] + a1 =~= a);
        assert(split_on(a, c) == seq![a1].update(0, seq![a[0]] + a1));
        assert(split_on(a, c) =~= seq![a]);
    } else {
        assert(a =~= Seq::<char>::empty());
        assert(split_on(a, c) =~= seq![a]);
    }
}

/// Every piece of a blank text is blank.
pub proof fn lemma_split_blank(a: Seq<char>, c: char)
    requires
        is_blank(a),
    ensures
        forall|i: int| 0 <= i < split_on(a, c).len() ==> is_blank(#[trigger] split_on(a, c)[i]),
    decreases a.len(),
{
    if a.len() > 0 {
        let a1 = a.drop_first();
        assert forall|k: int| 0 <= k < a1.len() implies is_ws(#[trigger] a1[k]) by {
            assert(a1[k] == a[k + 1]);
        }
        lemma_split_blank(a1, c);
        lemma_split_nonempty(a1, c);
        let rest = split_on(a1, c);
        if a[0] != c {
            assert forall|i: int| 0 <= i < split_on(a, c).len() implies is_blank(
                #[trigger] split_on(a, c)[i],
            ) by {
                if i == 0 {
                    let p = seq![a[0]] + rest[0];
                    assert(split_on(a, c)[0] == p);
                    assert forall|k: int| 0 <= k < p.len() implies is_ws(#[trigger] p[k]) by {
                        if k > 0 {
                            assert(p[k] == rest[0][k - 1]);
                        }
                    }
                } else {
                    assert(split_on(a, c)[i] == rest[i]);
                }
            }
        } else {
            assert forall|i: int| 0 <= i < split_on(a, c).len() implies is_blank(
                #[trigger] split_on(a, c)[i],
            ) by {
                if i > 0 {
                    assert(split_on(a, c)[i] == rest[i - 1]);
                }
            }
        }
    }
}

/// Keeping distributes over concatenation.
pub proof fn lemma_kept_concat(pl: Platform, p: Seq<Seq<char>>, q: Seq<Seq<char>>, w: Seq<char>)
    ensures
        kept_on(pl, p + q, w) == kept_on(pl, p, w) + kept_on(pl, q, w),
    decreases q.len(),
{
    if q.len() == 0 {
        assert(p + q =~= p);
        assert(kept_on(pl, p, w) + kept_on(pl, q, w) =~= kept_on(pl, p, w));
    } else {
        lemma_kept_concat(pl, p, q.drop_last(), w);
        assert((p + q).drop_last() =~= p + q.drop_last());
        assert((p + q).last() == q.last());
        let t = trim(q.last());
        if t.len() > 0 && t != w {
            assert(kept_on(pl, p + q, w) =~= kept_on(pl, p, w) + kept_on(pl, q, w));
        } else {
            assert(kept_on(pl, p + q, w) =~= kept_on(pl, p, w) + kept_on(pl, q, w));
        }
    }
}

/// Blank pieces are never kept.
pub proof fn lemma_kept_blank(pl: Platform, p: Seq<Seq<char>>, w: Seq<char>)
    requires
        forall|i: int| 0 <= i < p.len() ==> is_blank(#[trigger] p[i]),
    ensures
        kept_on(pl, p, w).len() == 0,
    decreases p.len(),
{
    if p.len() > 0 {
        lemma_blank_trim(p.last());
        assert forall|i: int| 0 <= i < p.drop_last().len() implies is_blank(
            #[trigger] p.drop_last()[i],
        ) by {
            assert(p.drop_last()[i] == p[i]);
        }
        lemma_kept_blank(pl, p.drop_last(), w);
    }
}

/// The entry itself is never kept.
proof fn lemma_kept_self(pl: Platform, e: Seq<char>)
    ensures
        kept_on(pl, seq![e], canon_on(pl, e)).len() == 0,
{
    let p = seq![e];
    assert(p.drop_last() =~= Seq::<Seq<char>>::empty());
    assert(p.last() == e);
    assert(kept_on(pl, p.drop_last(), canon_on(pl, e)) == Seq::<Seq<char>>::empty());
}

/// Uninstall undoes install: removing an entry from the list that offering it
/// produced gives exactly what removing it from the original list gives, for
/// every list and every entry that holds no separator, under the list rules
/// of every platform. Prepending or appending a segment and then dropping it
/// leaves every other segment, in order.
pub proof fn law_remove_undoes_offer(pl: Platform, l: Seq<char>, entry: Seq<char>, front: bool)
    requires
        !entry.contains(sep_of(pl)),
    ensures
        remove_text_on(pl, offer_text_on(pl, l, entry, front), entry) == remove_text_on(pl, l, entry),
{
    let w = canon_on(pl, entry);
    lemma_split_single(entry, sep_of(pl));
    lemma_kept_self(pl, entry);
    if list_contains_on(pl, l, entry) {
    } else if is_blank(l) {
        lemma_split_blank(l, sep_of(pl));
        lemma_kept_blank(pl, segments_on(pl, l), w);
    } else if front {
        lemma_split_concat(entry, l, sep_of(pl));
        lemma_kept_concat(pl, seq![entry], segments_on(pl, l), w);
        assert(kept_on(pl, seq![entry], w) + kept_on(pl, segments_on(pl, l), w) =~= kept_on(pl, segments_on(pl, l), w));
    } else {
        lemma_split_concat(l, entry, sep_of(pl));
        lemma_kept_concat(pl, segments_on(pl, l), seq![entry], w);
        assert(kept_on(pl, segments_on(pl, l), w) + kept_on(pl, seq![entry], w) =~= kept_on(pl, segments_on(pl, l), w));
    }
}

/// Removing anything from the empty list leaves nothing.
pub proof fn lemma_remove_from_empty(pl: Platform, entry: Seq<char>)
    ensures
        remove_text_on(pl, Seq::empty(), entry) is None,
{
    let e = Seq::<char>::empty();
    lemma_split_blank(e, sep_of(pl));
    lemma_kept_blank(pl, segments_on(pl, e), canon_on(pl, entry));
}

/// Offering an entry makes the list contain it.
pub proof fn lemma_offer_contains(pl: Platform, l: Seq<char>, entry: Seq<char>, front: bool)
    requires
        !entry.contains(sep_of(pl)),
    ensures
        list_contains_on(pl, offer_text_on(pl, l, entry, front), entry),
{
    lemma_split_single(entry, sep_of(pl));
    let o = offer_text_on(pl, l, entry, front);
    if list_contains_on(pl, l, entry) {
    } else if is_blank(l) {
        assert(segments_on(pl, o)[0] == entry);
    } else if front {
        lemma_split_concat(entry, l, sep_of(pl));
        assert(segments_on(pl, o)[0] == entry);
    } else {
        lemma_split_concat(l, entry, sep_of(pl));
        lemma_split_nonempty(l, sep_of(pl));
        let n = segments_on(pl, l).len();
        assert(segments_on(pl, o)[n as int] == entry);
    }
}

/// Re-applying a path-list delta is a no-op: offering an entry that holds no
/// separator a second time (at either end) leaves the list unchanged, under
/// the list rules of every platform (on Windows a case variant of a listed
/// entry is never added).
pub proof fn law_offer_idempotent(pl: Platform, l: Seq<char>, entry: Seq<char>, first: bool, second: bool)
    requires
        !entry.contains(sep_of(pl)),
    ensures
        offer_text_on(pl, offer_text_on(pl, l, entry, first), entry, second) == offer_text_on(pl, l, entry, first),
{
    lemma_offer_contains(pl, l, entry, first);
}

// ---------------------------------------------------------------------------
// Uninstalling in any order
// ---------------------------------------------------------------------------

/// No piece of a split holds the separator.
pub proof fn lemma_split_pieces_free(s: Seq<char>, c: char)
    ensures
        forall|i: int|
            0 <= i < split_on(s, c).len() ==> !(#[trigger] split_on(s, c)[i]).contains(c),
    decreases s.len(),
{
    if s.len() > 0 {
        let s1 = s.drop_first();
        lemma_split_pieces_free(s1, c);
        lemma_split_nonempty(s1, c);
        let rest = split_on(s1, c);
        if s[0] != c {
            let p = seq![s[0]] + rest[0];
            assert(!p.contains(c)) by {
                if p.contains(c) {
                    let k = choose|k: int| 0 <= k < p.len() && p[k] == c;
                    assert(k > 0);
                    assert(rest[0][k - 1] == c);
                }
            }
            assert forall|i: int| 0 <= i < split_on(s, c).len() implies !(#[trigger] split_on(
                s,
                c,
            )[i]).contains(c) by {
                if i > 0 {
                    assert(split_on(s, c)[i] == rest[i]);
                }
            }
        } else {
            assert forall|i: int| 0 <= i < split_on(s, c).len() implies !(#[trigger] split_on(
                s,
                c,
            )[i]).contains(c) by {
                if i > 0 {
                    assert(split_on(s, c)[i] == rest[i - 1]);
                } else {
                    assert(split_on(s, c)[0] =~= Seq::<char>::empty());
                }
            }
        }
    }
}

/// Trimming the front removes leading whitespace only: the result is a
/// suffix that is empty or starts with a non-whitespace character.
proof fn lemma_trim_start_shape(s: Seq<char>)
    ensures
        exists|i: int| 0 <= i <= s.len() && #[trigger] s.skip(i) == crate::text::trim_start(s),
        crate::text::trim_start(s).len() > 0 ==> !is_ws(crate::text::trim_start(s)[0]),
    decreases s.len(),
{
    if s.len() > 0 && is_ws(s[0]) {
        lemma_trim_start_shape(s.drop_first());
        let i = choose|i: int|
            0 <= i <= s.drop_first().len() && #[trigger] s.drop_first().skip(i)
                == crate::text::trim_start(s.drop_first());
        assert(s.skip(i + 1) =~= s.drop_first().skip(i));
    } else {
        assert(s.skip(0) =~= s);
    }
}

/// Trimming the back removes trailing whitespace only: the result is a
/// prefix that is empty or ends with a non-whitespace character.
proof fn lemma_trim_end_shape(s: Seq<char>)
    ensures
        exists|j: int| 0 <= j <= s.len() && #[trigger] s.take(j) == crate::text::trim_end(s),
        crate::text::trim_end(s).len() > 0 ==> !is_ws(crate::text::trim_end(s).last()),
    decreases s.len(),
{
    if s.len() > 0 && is_ws(s.last()) {
        lemma_trim_end_shape(s.drop_last());
        let j = choose|j: int|
            0 <= j <= s.drop_last().len() && #[trigger] s.drop_last().take(j)
                == crate::text::trim_end(s.drop_last());
        assert(s.take(j) =~= s.drop_last().take(j));
    } else {
        assert(s.take(s.len() as int) =~= s);
    }
}

/// A trimmed text holds no character its source lacks, and trimming it again
/// changes nothing.
proof fn lemma_trim_facts(s: Seq<char>, c: char)
    ensures
        !s.contains(c) ==> !trim(s).contains(c),
        trim(trim(s)) == trim(s),
{
    let u = crate::text::trim_start(s);
    let v = crate::text::trim_end(u);
    lemma_trim_start_shape(s);
    lemma_trim_end_shape(u);
    let i = choose|i: int| 0 <= i <= s.len() && #[trigger] s.skip(i) == u;
    let j = choose|j: int| 0 <= j <= u.len() && #[trigger] u.take(j) == v;
    if !s.contains(c) {
        assert(!v.contains(c)) by {
            if v.contains(c) {
                let k = choose|k: int| 0 <= k < v.len() && v[k] == c;
                assert(v[k] == u[k]);
                assert(u[k] == s[i + k]);
            }
        }
    }
    if v.len() > 0 {
        assert(v[0] == u[0]);
        assert(crate::text::trim_start(v) == v);
        assert(crate::text::trim_end(v) == v);
    } else {
        assert(crate::text::trim_start(v) == v);
    }
}

/// Every kept piece is free of a character that no piece holds.
proof fn lemma_kept_free(parts: Seq<Seq<char>>, w: Seq<char>, c: char)
    requires
        forall|i: int| 0 <= i < parts.len() ==> !(#[trigger] parts[i]).contains(c),
    ensures
        forall|j: int|
            0 <= j < kept(parts, w).len() ==> !(#[trigger] kept(parts, w)[j]).contains(c),
    decreases parts.len(),
{
    if parts.len() > 0 {
        let d = parts.drop_last();
        assert forall|i: int| 0 <= i < d.len() implies !(#[trigger] d[i]).contains(c) by {
            assert(d[i] == parts[i]);
        }
        lemma_kept_free(d, w, c);
        lemma_trim_facts(parts.last(), c);
        let k = kept(parts, w);
        let kd = kept(d, w);
        assert forall|j: int| 0 <= j < k.len() implies !(#[trigger] k[j]).contains(c) by {
            if j < kd.len() {
                assert(k[j] == kd[j]);
            } else {
                assert(k[j] == trim(parts.last()));
            }
        }
    }
}

/// A non-blank piece other than the removed entry is kept.
proof fn lemma_kept_has(parts: Seq<Seq<char>>, w: Seq<char>, i: int)
    requires
        0 <= i < parts.len(),
        trim(parts[i]).len() > 0,
        trim(parts[i]) != w,
    ensures
        kept(parts, w).contains(trim(parts[i])),
    decreases parts.len(),
{
    let k = kept(parts, w);
    if i < parts.len() - 1 {
        let d = parts.drop_last();
        assert(d[i] == parts[i]);
        lemma_kept_has(d, w, i);
        let j = choose|j: int| 0 <= j < kept(d, w).len() && kept(d, w)[j] == trim(parts[i]);
        assert(k[j] == kept(d, w)[j]);
    } else {
        assert(k.last() == trim(parts[i]));
    }
}

/// Joining pieces that hold no separator and splitting again gives them back.
pub proof fn lemma_split_join(k: Seq<Seq<char>>, c: char)
    requires
        k.len() > 0,
        forall|i: int| 0 <= i < k.len() ==> !(#[trigger] k[i]).contains(c),
    ensures
        split_on(crate::text::join_with(k, seq![c]), c) == k,
    decreases k.len(),
{
    if k.len() == 1 {
        lemma_split_single(k[0], c);
        assert(seq![k[0]] =~= k);
    } else {
        let d = k.drop_last();
        assert forall|i: int| 0 <= i < d.len() implies !(#[trigger] d[i]).contains(c) by {
            assert(d[i] == k[i]);
        }
        lemma_split_join(d, c);
        lemma_split_concat(crate::text::join_with(d, seq![c]), k.last(), c);
        lemma_split_single(k.last(), c);
        assert(crate::text::join_with(d, seq![c]) + seq![c] + k.last() =~= crate::text::join_with(
            k,
            seq![c],
        ));
        assert(d + seq![k.last()] =~= k);
    }
}

/// Removing one entry keeps every other listed entry that is not blank.
proof fn lemma_remove_keeps(o: Seq<char>, a: Seq<char>, b: Seq<char>)
    requires
        list_contains(o, b),
        trim(b).len() > 0,
        trim(a) != trim(b),
    ensures
        remove_text(o, a) matches Some(t) && list_contains(t, b),
{
    let parts = segments(o);
    let w = trim(a);
    let i = choose|i: int| 0 <= i < parts.len() && trim(#[trigger] parts[i]) == trim(b);
    lemma_kept_has(parts, w, i);
    let k = kept(parts, w);
    let j = choose|j: int| 0 <= j < k.len() && k[j] == trim(b);
    lemma_split_pieces_free(o, sep());
    lemma_kept_free(parts, w, sep());
    lemma_split_join(k, sep());
    let t = crate::text::join_with(k, seq![sep()]);
    assert(remove_text(o, a) == Some(t));
    lemma_trim_facts(b, sep());
    assert(segments(t)[j] == trim(b));
    assert(trim(segments(t)[j]) == trim(b));
}

/// Offering an entry keeps every entry already listed that is not blank.
proof fn lemma_offer_keeps(o: Seq<char>, a: Seq<char>, b: Seq<char>, front: bool)
    requires
        list_contains(o, a),
        trim(a).len() > 0,
    ensures
        list_contains(offer_text(o, b, front), a),
{
    let i = choose|i: int| 0 <= i < segments(o).len() && trim(#[trigger] segments(o)[i]) == trim(a);
    if list_contains(o, b) {
    } else if is_blank(o) {
        lemma_split_blank(o, sep());
        lemma_blank_trim(segments(o)[i]);
    } else if front {
        lemma_split_concat(b, o, sep());
        let n = segments(b).len();
        assert(segments(offer_text(o, b, front))[n + i] == segments(o)[i]);
    } else {
        lemma_split_concat(o, b, sep());
        assert(segments(offer_text(o, b, front))[i] == segments(o)[i]);
    }
}

/// Uninstalls in any order keep the other install: after `a` and then `b`
/// were offered to a path list, removing either one leaves the other listed,
/// for entries that hold no separator, are not blank, and differ after
/// trimming.
pub proof fn law_uninstall_any_order(l: Seq<char>, a: Seq<char>, b: Seq<char>, fa: bool, fb: bool)
    requires
        !a.contains(sep()),
        !b.contains(sep()),
        trim(a).len() > 0,
        trim(b).len() > 0,
        trim(a) != trim(b),
    ensures
        remove_text(offer_text(offer_text(l, a, fa), b, fb), a) matches Some(t) && list_contains(
            t,
            b,
        ),
        remove_text(offer_text(offer_text(l, a, fa), b, fb), b) matches Some(t) && list_contains(
            t,
            a,
        ),
{
    let o1 = offer_text(l, a, fa);
    let o2 = offer_text(o1, b, fb);
    lemma_offer_contains(Platform::Posix, o1, b, fb);
    lemma_remove_keeps(o2, a, b);
    lemma_offer_contains(Platform::Posix, l, a, fa);
    lemma_offer_keeps(o1, a, b, fb);
    lemma_remove_keeps(o2, b, a);
}

// ---------------------------------------------------------------------------
// Applying deltas and replaying their snapshots
// ---------------------------------------------------------------------------

/// The value of a variable, if present.
pub open spec fn lookup(m: Map<Seq<char>, Seq<char>>, name: Seq<char>) -> Option<Seq<char>> {
    if m.contains_key(name) {
        Some(m[name])
    } else {
        None
    }
}

/// The variables after one delta is merged in, path lists following the
/// rules of `pl`.
pub open spec fn apply_one(pl: Platform, m: Map<Seq<char>, Seq<char>>, d: EnvDelta) -> Map<Seq<char>, Seq<char>> {
    m.insert(d.name@, merge_text(pl, lookup(m, d.name@), d.op, d.value@))
}

/// The variables after the deltas are merged in, in order.
pub open spec fn apply_all(pl: Platform, m: Map<Seq<char>, Seq<char>>, ds: Seq<EnvDelta>) -> Map<
    Seq<char>,
    Seq<char>,
>
    decreases ds.len(),
{
    if ds.len() == 0 {
        m
    } else {
        apply_one(pl, apply_all(pl, m, ds.drop_last()), ds.last())
    }
}

/// The `(name, value before)` snapshot of each delta, in apply order.
pub open spec fn snapshots_of(pl: Platform, m: Map<Seq<char>, Seq<char>>, ds: Seq<EnvDelta>) -> Seq<
    (Seq<char>, Option<Seq<char>>),
>
    decreases ds.len(),
{
    if ds.len() == 0 {
        Seq::empty()
    } else {
        snapshots_of(pl, m, ds.drop_last()).push(
            (ds.last().name@, lookup(apply_all(pl, m, ds.drop_last()), ds.last().name@)),
        )
    }
}

/// Restoring one snapshot: write the old value back, or remove the variable
/// when it did not exist.
pub open spec fn restore_one(
    m: Map<Seq<char>, Seq<char>>,
    snap: (Seq<char>, Option<Seq<char>>),
) -> Map<Seq<char>, Seq<char>> {
    match snap.1 {
        Some(v) => m.insert(snap.0, v),
        None => m.remove(snap.0),
    }
}

/// Replaying snapshots last-in first-out.
pub open spec fn restore_lifo(
    m: Map<Seq<char>, Seq<char>>,
    snaps: Seq<(Seq<char>, Option<Seq<char>>)>,
) -> Map<Seq<char>, Seq<char>>
    decreases snaps.len(),
{
    if snaps.len() == 0 {
        m
    } else {
        restore_lifo(restore_one(m, snaps.last()), snaps.drop_last())
    }
}

/// Compensation restores the old values: applying any sequence of deltas to
/// any set of variables, under the list rules of any platform, and then
/// replaying the captured snapshots in reverse order gives back exactly the
/// original variables.
pub proof fn law_restore_undoes_apply(pl: Platform, m: Map<Seq<char>, Seq<char>>, ds: Seq<EnvDelta>)
    ensures
        restore_lifo(apply_all(pl, m, ds), snapshots_of(pl, m, ds)) == m,
    decreases ds.len(),
{
    if ds.len() > 0 {
        let before = apply_all(pl, m, ds.drop_last());
        let d = ds.last();
        let snap = (d.name@, lookup(before, d.name@));
        assert(restore_one(apply_one(pl, before, d), snap) =~= before);
        law_restore_undoes_apply(pl, m, ds.drop_last());
        let snaps = snapshots_of(pl, m, ds);
        assert(snaps.last() == snap);
        assert(snaps.drop_last() =~= snapshots_of(pl, m, ds.drop_last()));
        assert(apply_all(pl, m, ds) == apply_one(pl, before, d));
        assert(restore_lifo(apply_all(pl, m, ds), snaps) == restore_lifo(
            restore_one(apply_all(pl, m, ds), snap),
            snaps.drop_last(),
        ));
    }
}

} // verus!
