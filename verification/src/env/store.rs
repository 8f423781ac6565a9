//! Line format of the POSIX environment script (`~/.wanted/env.sh`).
//!
//! The persistent backend keeps one `export NAME="value"` line per variable.
//! These functions decide the lines; reading and writing the file is left to
//! the front end.

use vstd::prelude::*;

use crate::text::{
    chars_eq, chars_of, has_prefix, push_all, replace_all, replace_chars, split_on, starts_with,
    string_of,
};

verus! {

/// The views of a sequence of strings.
pub open spec fn svs(v: Seq<String>) -> Seq<Seq<char>> {
    v.map_values(|s: String| s@)
}

/// A value escaped so it stays inside one double-quoted shell string:
/// backslashes are doubled, then quotes are backslash-escaped.
pub open spec fn escaped(value: Seq<char>) -> Seq<char> {
    replace_all(replace_all(value, seq!['\\'], seq!['\\', '\\']), seq!['"'], seq!['\\', '"'])
}

/// The declaration line of one variable.
pub open spec fn export_text(name: Seq<char>, value: Seq<char>) -> Seq<char> {
    "export "@ + name + seq!['=', '"'] + escaped(value) + seq!['"']
}

/// Whether a line is an `export <name>=...` declaration for `name`.
pub open spec fn declares(line: Seq<char>, name: Seq<char>) -> bool {
    has_prefix(line, "export "@) && split_on(line.skip(7), '=')[0] == name
}

/// Shell-escape a value so it stays inside a single double-quoted string.
pub fn escape_value(value: &str) -> (r: String)
    ensures
        r@ == escaped(value@),
{
    let v = chars_of(value);
    let mut bs: Vec<char> = Vec::new();
    bs.push('\\');
    let mut bs2: Vec<char> = Vec::new();
    bs2.push('\\');
    bs2.push('\\');
    let mut q: Vec<char> = Vec::new();
    q.push('"');
    let mut bq: Vec<char> = Vec::new();
    bq.push('\\');
    bq.push('"');
    let a = replace_chars(v.as_slice(), bs.as_slice(), bs2.as_slice());
    let b = replace_chars(a.as_slice(), q.as_slice(), bq.as_slice());
    assert(bs@ =~= seq!['\\']);
    assert(bs2@ =~= seq!['\\', '\\']);
    assert(q@ =~= seq!['"']);
    assert(bq@ =~= seq!['\\', '"']);
    string_of(b.as_slice())
}

/// The `export name="value"` line for one variable.
pub fn export_line(name: &str, value: &str) -> (r: String)
    ensures
        r@ == export_text(name@, value@),
{
    let mut out = chars_of("export ");
    let n = chars_of(name);
    push_all(&mut out, n.as_slice());
    out.push('=');
    out.push('"');
    let e = escape_value(value);
    let ec = chars_of(e.as_str());
    push_all(&mut out, ec.as_slice());
    out.push('"');
    assert(out@ =~= export_text(name@, value@));
    string_of(out.as_slice())
}

/// The characters before the first `=` of `s`.
fn before_eq(s: &[char]) -> (r: Vec<char>)
    ensures
        r@ == split_on(s@, '=')[0],
{
    let mut k: usize = 0;
    while k < s.len() && s[k] != '='
        invariant
            k <= s@.len(),
            forall|m: int| 0 <= m < k ==> s@[m] != '=',
        decreases s@.len() - k,
    {
        k = k + 1;
    }
    proof {
        lemma_first_piece(s@, k as int);
    }
    let mut r: Vec<char> = Vec::new();
    let mut m: usize = 0;
    while m < k
        invariant
            m <= k <= s@.len(),
            r@ == s@.take(m as int),
        decreases k - m,
    {
        r.push(s[m]);
        m = m + 1;
        assert(r@ =~= s@.take(m as int));
    }
    r
}

proof fn lemma_first_piece(s: Seq<char>, k: int)
    requires
        0 <= k <= s.len(),
        forall|m: int| 0 <= m < k ==> s[m] != '=',
        k == s.len() || s[k] == '=',
    ensures
        split_on(s, '=')[0] == s.take(k),
    decreases s.len(),
{
    crate::text::lemma_split_nonempty(s, '=');
    if s.len() == 0 {
        assert(s.take(k) =~= Seq::<char>::empty());
    } else if k == 0 {
        assert(s.take(k) =~= Seq::<char>::empty());
    } else {
        let s1 = s.drop_first();
        assert forall|m: int| 0 <= m < k - 1 implies s1[m] != '=' by {
            assert(s1[m] == s[m + 1]);
        }
        if k < s.len() {
            assert(s1[k - 1] == s[k]);
        }
        lemma_first_piece(s1, k - 1);
        crate::text::lemma_split_nonempty(s1, '=');
        assert(seq![s[0]] + s1.take(k - 1) =~= s.take(k));
    }
}

/// Whether a line is an `export <name>=...` declaration for the given name.
pub fn is_var_line(line: &str, name: &str) -> (r: bool)
    ensures
        r == declares(line@, name@),
{
    let l = chars_of(line);
    let p = chars_of("export ");
    proof {
        reveal_strlit("export ");
    }
    if !starts_with(l.as_slice(), p.as_slice()) {
        return false;
    }
    let mut rest: Vec<char> = Vec::new();
    let mut k: usize = 7;
    while k < l.len()
        invariant
            7 <= k <= l@.len(),
            rest@ == l@.subrange(7, k as int),
        decreases l@.len() - k,
    {
        rest.push(l[k]);
        k = k + 1;
        assert(rest@ =~= l@.subrange(7, k as int));
    }
    assert(rest@ =~= l@.skip(7));
    let head = before_eq(rest.as_slice());
    let n = chars_of(name);
    chars_eq(head.as_slice(), n.as_slice())
}

/// The lines after declaring `name` as `value`: the first declaration is
/// replaced, later ones dropped, and a line is appended when none existed.
pub open spec fn upsert_from(
    lines: Seq<Seq<char>>,
    name: Seq<char>,
    value: Seq<char>,
    changed: bool,
) -> Seq<Seq<char>>
    decreases lines.len(),
{
    if lines.len() == 0 {
        if changed {
            Seq::empty()
        } else {
            seq![export_text(name, value)]
        }
    } else if declares(lines[0], name) {
        if changed {
            upsert_from(lines.drop_first(), name, value, true)
        } else {
            seq![export_text(name, value)] + upsert_from(lines.drop_first(), name, value, true)
        }
    } else {
        seq![lines[0]] + upsert_from(lines.drop_first(), name, value, changed)
    }
}

/// Replace every line declaring `name` with a single `export name="value"`,
/// appending when none exists.
pub fn upsert(lines: Vec<String>, name: &str, value: &str) -> (r: Vec<String>)
    ensures
        svs(r@) == upsert_from(svs(lines@), name@, value@, false),
{
    let mut changed = false;
    let mut out: Vec<String> = Vec::new();
    let mut i: usize = 0;
    assert(svs(lines@).skip(0) =~= svs(lines@));
    while i < lines.len()
        invariant
            i <= lines@.len(),
            upsert_from(svs(lines@), name@, value@, false) == svs(out@) + upsert_from(
                svs(lines@).skip(i as int),
                name@,
                value@,
                changed,
            ),
        decreases lines@.len() - i,
    {
        let ghost t = svs(lines@).skip(i as int);
        let ghost before = svs(out@);
        proof {
            assert(t[0] == lines@[i as int]@);
            assert(t.drop_first() =~= svs(lines@).skip(i + 1));
        }
        if is_var_line(lines[i].as_str(), name) {
            if !changed {
                out.push(export_line(name, value));
                changed = true;
                assert(svs(out@) =~= before.push(export_text(name@, value@)));
            }
        } else {
            out.push(lines[i].clone());
            assert(svs(out@) =~= before.push(t[0]));
        }
        i = i + 1;
    }
    assert(svs(lines@).skip(i as int) =~= Seq::<Seq<char>>::empty());
    if !changed {
        let ghost before = svs(out@);
        out.push(export_line(name, value));
        assert(svs(out@) =~= before.push(export_text(name@, value@)));
    } else {
        assert(svs(out@) + Seq::<Seq<char>>::empty() =~= svs(out@));
    }
    out
}

/// The lines without any declaration of `name`, in order.
pub open spec fn without_var(lines: Seq<Seq<char>>, name: Seq<char>) -> Seq<Seq<char>>
    decreases lines.len(),
{
    if lines.len() == 0 {
        Seq::empty()
    } else if declares(lines.last(), name) {
        without_var(lines.drop_last(), name)
    } else {
        without_var(lines.drop_last(), name).push(lines.last())
    }
}

/// Drop every line declaring `name`, keeping the others in order.
pub fn remove_var_lines(lines: Vec<String>, name: &str) -> (r: Vec<String>)
    ensures
        svs(r@) == without_var(svs(lines@), name@),
{
    let mut out: Vec<String> = Vec::new();
    let mut i: usize = 0;
    while i < lines.len()
        invariant
            i <= lines@.len(),
            svs(out@) == without_var(svs(lines@).take(i as int), name@),
        decreases lines@.len() - i,
    {
        let ghost before = svs(out@);
        proof {
            let t = svs(lines@).take(i + 1);
            assert(t.drop_last() =~= svs(lines@).take(i as int));
            assert(t.last() == lines@[i as int]@);
        }
        if !is_var_line(lines[i].as_str(), name) {
            out.push(lines[i].clone());
            assert(svs(out@) =~= before.push(lines@[i as int]@));
        }
        i = i + 1;
    }
    assert(svs(lines@).take(lines@.len() as int) =~= svs(lines@));
    out
}

} // verus!
