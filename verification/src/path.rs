//! POSIX path text: joining, parents, and component normalisation.
//!
//! Paths are carried as plain strings separated by `/`. The rules follow
//! `std::path` on POSIX for paths without `.` segments: joining an absolute
//! path replaces the base, joining anything else adds one separator unless the
//! base is empty or already ends in one.

use vstd::prelude::*;

use crate::env::laws::lemma_split_single;
use crate::text::{chars_of, cviews, lemma_split_nonempty, split_chars, split_on, str_eq, string_of};

verus! {

/// `base` joined with `part`, as `Path::join` does on POSIX.
pub open spec fn joined(base: Seq<char>, part: Seq<char>) -> Seq<char> {
    if part.len() > 0 && part[0] == '/' {
        part
    } else if base.len() == 0 {
        part
    } else if base.last() == '/' {
        base + part
    } else {
        base + seq!['/'] + part
    }
}

/// Join a relative part onto a base path.
pub fn join(base: &str, part: &str) -> (r: String)
    ensures
        r@ == joined(base@, part@),
{
    let b = chars_of(base);
    let p = chars_of(part);
    if p.len() > 0 && p[0] == '/' {
        return part.to_owned();
    }
    if b.len() == 0 {
        return part.to_owned();
    }
    let mut out = b.clone();
    if b[b.len() - 1] != '/' {
        out.push('/');
    }
    crate::text::push_all(&mut out, p.as_slice());
    string_of(out.as_slice())
}

/// Whether a path is absolute.
pub open spec fn absolute(p: Seq<char>) -> bool {
    p.len() > 0 && p[0] == '/'
}

pub fn is_absolute(p: &str) -> (r: bool)
    ensures
        r == absolute(p@),
{
    let c = chars_of(p);
    c.len() > 0 && c[0] == '/'
}

/// The text with trailing separators removed.
pub open spec fn strip_slashes(p: Seq<char>) -> Seq<char>
    decreases p.len(),
{
    if p.len() > 0 && p.last() == '/' {
        strip_slashes(p.drop_last())
    } else {
        p
    }
}

/// The index of the last separator in `p`, or -1.
pub open spec fn last_slash(p: Seq<char>) -> int
    decreases p.len(),
{
    if p.len() == 0 {
        -1
    } else if p.last() == '/' {
        p.len() - 1
    } else {
        last_slash(p.drop_last())
    }
}

pub proof fn lemma_last_slash(p: Seq<char>)
    ensures
        -1 <= last_slash(p) < p.len(),
        last_slash(p) >= 0 ==> p[last_slash(p)] == '/',
        forall|k: int| last_slash(p) < k < p.len() ==> p[k] != '/',
    decreases p.len(),
{
    if p.len() > 0 && p.last() != '/' {
        lemma_last_slash(p.drop_last());
        assert forall|k: int| last_slash(p) < k < p.len() implies p[k] != '/' by {
            if k < p.len() - 1 {
                assert(p[k] == p.drop_last()[k]);
            }
        }
    }
}

/// The parent of a path (`Path::parent` on POSIX, for paths without `.`
/// segments): `None` for the root and the empty path.
pub open spec fn parent_text(p: Seq<char>) -> Option<Seq<char>> {
    let t = strip_slashes(p);
    if t.len() == 0 {
        None
    } else {
        let i = last_slash(t);
        if i < 0 {
            Some(Seq::empty())
        } else {
            let head = strip_slashes(t.take(i));
            if head.len() == 0 {
                Some(seq!['/'])
            } else {
                Some(head)
            }
        }
    }
}

fn strip_slashes_len(p: &[char], n: usize) -> (r: usize)
    requires
        n <= p@.len(),
    ensures
        r <= n,
        strip_slashes(p@.take(n as int)) == p@.take(r as int),
{
    let mut k = n;
    while k > 0 && p[k - 1] == '/'
        invariant
            k <= n <= p@.len(),
            strip_slashes(p@.take(n as int)) == strip_slashes(p@.take(k as int)),
        decreases k,
    {
        proof {
            let t = p@.take(k as int);
            assert(t.last() == p@[k - 1]);
            assert(t.drop_last() =~= p@.take(k - 1));
        }
        k = k - 1;
    }
    proof {
        let t = p@.take(k as int);
        if k > 0 {
            assert(t.last() == p@[k - 1]);
        }
    }
    k
}

/// The parent of a path; `None` for the root and the empty path.
pub fn parent(p: &str) -> (r: Option<String>)
    ensures
        r matches Some(s) ==> parent_text(p@) == Some(s@),
        r is None ==> parent_text(p@) is None,
{
    let c = chars_of(p);
    let n = strip_slashes_len(c.as_slice(), c.len());
    assert(c@.take(c@.len() as int) =~= c@);
    let ghost t = c@.take(n as int);
    if n == 0 {
        return None;
    }
    let mut i = n;
    assert(t.take(n as int) =~= t);
    while i > 0 && c[i - 1] != '/'
        invariant
            i <= n <= c@.len(),
            t == c@.take(n as int),
            last_slash(t) == last_slash(t.take(i as int)),
        decreases i,
    {
        proof {
            let u = t.take(i as int);
            assert(u.last() == c@[i - 1]);
            assert(u.drop_last() =~= t.take(i - 1));
        }
        i = i - 1;
    }
    proof {
        let u = t.take(i as int);
        if i > 0 {
            assert(u.last() == c@[i - 1]);
        } else {
            assert(u =~= Seq::<char>::empty());
        }
    }
    if i == 0 {
        return Some(String::new());
    }
    let h = strip_slashes_len(c.as_slice(), i - 1);
    assert(t.take(i - 1) =~= c@.take(i - 1));
    if h == 0 {
        let mut out: Vec<char> = Vec::new();
        out.push('/');
        assert(out@ =~= seq!['/']);
        assert(c@.take(0) =~= Seq::<char>::empty());
        return Some(string_of(out.as_slice()));
    }
    let head = crate::text::take_chars(c.as_slice(), h);
    Some(string_of(head.as_slice()))
}

// ---------------------------------------------------------------------------
// Components
// ---------------------------------------------------------------------------

/// A normal component: not empty, `.`, or `..`.
pub open spec fn is_normal(piece: Seq<char>) -> bool {
    piece.len() > 0 && piece != "."@ && piece != ".."@
}

/// The normal components, in order (what `Path::components` yields as
/// `Component::Normal`).
pub open spec fn normals(pieces: Seq<Seq<char>>) -> Seq<Seq<char>>
    decreases pieces.len(),
{
    if pieces.len() == 0 {
        Seq::empty()
    } else if is_normal(pieces.last()) {
        normals(pieces.drop_last()).push(pieces.last())
    } else {
        normals(pieces.drop_last())
    }
}

/// The lexical normal form: `..` drops the previous component, `.`, empty
/// pieces and the root are ignored.
pub open spec fn resolved(pieces: Seq<Seq<char>>) -> Seq<Seq<char>>
    decreases pieces.len(),
{
    if pieces.len() == 0 {
        Seq::empty()
    } else {
        let k = resolved(pieces.drop_last());
        let last = pieces.last();
        if last == ".."@ {
            if k.len() > 0 {
                k.drop_last()
            } else {
                k
            }
        } else if is_normal(last) {
            k.push(last)
        } else {
            k
        }
    }
}

/// The normal components of a path.
pub open spec fn path_normals(p: Seq<char>) -> Seq<Seq<char>> {
    normals(split_on(p, '/'))
}

/// The lexical key of a path.
pub open spec fn path_key(p: Seq<char>) -> Seq<Seq<char>> {
    resolved(split_on(p, '/'))
}

/// Whether a path names a file: its last `/`-separated piece is a normal
/// component (not empty, `.` or `..`).
pub open spec fn names_file(p: Seq<char>) -> bool {
    is_normal(split_on(p, '/').last())
}

/// Appending text without a `/` extends the last piece.
pub proof fn lemma_split_extend(p: Seq<char>, t: Seq<char>)
    requires
        !t.contains('/'),
    ensures
        split_on(p + t, '/') == split_on(p, '/').update(
            split_on(p, '/').len() - 1,
            split_on(p, '/').last() + t,
        ),
    decreases p.len(),
{
    lemma_split_nonempty(p, '/');
    if p.len() == 0 {
        lemma_split_single(t, '/');
        assert(p + t =~= t);
        assert(Seq::<char>::empty() + t =~= t);
        assert(split_on(p, '/').update(0, split_on(p, '/').last() + t) =~= seq![t]);
    } else {
        let p1 = p.drop_first();
        lemma_split_extend(p1, t);
        lemma_split_nonempty(p1, '/');
        assert((p + t).drop_first() =~= p1 + t);
        assert((p + t)[0] == p[0]);
        let s1 = split_on(p1, '/');
        let n = s1.len();
        if p[0] == '/' {
            assert(split_on(p + t, '/') =~= split_on(p, '/').update(
                split_on(p, '/').len() - 1,
                split_on(p, '/').last() + t,
            ));
        } else {
            if n == 1 {
                assert(seq![p[0]] + (s1[0] + t) =~= (seq![p[0]] + s1[0]) + t);
            }
            assert(split_on(p + t, '/') =~= split_on(p, '/').update(
                split_on(p, '/').len() - 1,
                split_on(p, '/').last() + t,
            ));
        }
    }
}

/// The key of a file path, and of that path with a suffix appended: the same
/// parent key, with the last component extended.
pub proof fn lemma_key_extend(p: Seq<char>, t: Seq<char>)
    requires
        names_file(p),
        !t.contains('/'),
        t.len() >= 2,
    ensures
        path_key(p) == resolved(split_on(p, '/').drop_last()).push(split_on(p, '/').last()),
        path_key(p + t) == resolved(split_on(p, '/').drop_last()).push(split_on(p, '/').last() + t),
{
    lemma_split_extend(p, t);
    lemma_split_nonempty(p, '/');
    let s = split_on(p, '/');
    let s2 = split_on(p + t, '/');
    assert(s2.drop_last() =~= s.drop_last());
    assert(s2.last() == s.last() + t);
    reveal_strlit("..");
    reveal_strlit(".");
    assert((s.last() + t).len() >= 3);
    assert(s.last() + t != ".."@);
    assert(is_normal(s.last() + t));
}

/// The views of a sequence of strings.
pub open spec fn svs(v: Seq<String>) -> Seq<Seq<char>> {
    v.map_values(|s: String| s@)
}

fn piece_kind(piece: &Vec<char>) -> (r: u8)
    ensures
        r == 0 <==> piece@ == ".."@,
        r == 1 <==> is_normal(piece@),
        r <= 2,
{
    let s = string_of(piece.as_slice());
    if str_eq(s.as_str(), "..") {
        0
    } else if piece.len() > 0 && !str_eq(s.as_str(), ".") {
        1
    } else {
        2
    }
}

/// The normal components of a path.
pub fn components(p: &str) -> (r: Vec<String>)
    ensures
        svs(r@) == path_normals(p@),
{
    let c = chars_of(p);
    let pieces = split_chars(c.as_slice(), '/');
    let mut out: Vec<String> = Vec::new();
    let mut i: usize = 0;
    while i < pieces.len()
        invariant
            i <= pieces@.len(),
            cviews(pieces@) == split_on(p@, '/'),
            svs(out@) == normals(cviews(pieces@).take(i as int)),
        decreases pieces@.len() - i,
    {
        let ghost before = svs(out@);
        proof {
            let t = cviews(pieces@).take(i + 1);
            assert(t.drop_last() =~= cviews(pieces@).take(i as int));
            assert(t.last() == pieces@[i as int]@);
        }
        if piece_kind(&pieces[i]) == 1 {
            out.push(string_of(pieces[i].as_slice()));
            assert(svs(out@) =~= before.push(pieces@[i as int]@));
        }
        i = i + 1;
    }
    assert(cviews(pieces@).take(pieces@.len() as int) =~= cviews(pieces@));
    out
}

/// The lexical key of a path.
pub fn key(p: &str) -> (r: Vec<String>)
    ensures
        svs(r@) == path_key(p@),
{
    let c = chars_of(p);
    let pieces = split_chars(c.as_slice(), '/');
    let mut out: Vec<String> = Vec::new();
    let mut i: usize = 0;
    while i < pieces.len()
        invariant
            i <= pieces@.len(),
            cviews(pieces@) == split_on(p@, '/'),
            svs(out@) == resolved(cviews(pieces@).take(i as int)),
        decreases pieces@.len() - i,
    {
        let ghost before = svs(out@);
        proof {
            let t = cviews(pieces@).take(i + 1);
            assert(t.drop_last() =~= cviews(pieces@).take(i as int));
            assert(t.last() == pieces@[i as int]@);
        }
        let kind = piece_kind(&pieces[i]);
        if kind == 0 {
            if out.len() > 0 {
                out.pop();
                assert(svs(out@) =~= before.drop_last());
            }
        } else if kind == 1 {
            out.push(string_of(pieces[i].as_slice()));
            assert(svs(out@) =~= before.push(pieces@[i as int]@));
        }
        i = i + 1;
    }
    assert(cviews(pieces@).take(pieces@.len() as int) =~= cviews(pieces@));
    out
}

} // verus!
