//! Archive extraction.
//!
//! Does not depend on the real disk layout: it first reads bytes, parses them
//! into `[(relative_path, content)]`, then writes through [`Fs`]. All paths
//! are sanitized to prevent traversal.

use vstd::prelude::*;

use crate::engine::fs::{add_dirs, Fs, Node, Tree};
use crate::error::{Error, Result};
use crate::env::laws::{lemma_split_concat, lemma_split_join, lemma_split_pieces_free};
use crate::path::{
    absolute, components, is_absolute, is_normal, join, joined, normals, parent, parent_text,
    path_key, path_normals, resolved, svs,
};
use crate::text::{
    chars_of, cviews, join_chars, join_with, lemma_split_nonempty, split_chars, split_on, string_of,
};

verus! {

/// What `zip::ZipArchive` reads from an archive: each entry's name, whether it
/// is a directory and its contents, in archive order; or the error text.
pub uninterp spec fn zip_listing(bytes: Seq<u8>) -> core::result::Result<
    Seq<(Seq<char>, bool, Seq<u8>)>,
    Seq<char>,
>;

/// What `tar::Archive` over `flate2`'s gzip decoder reads from a `.tar.gz`:
/// each entry's path and contents, in archive order; or the error text.
pub uninterp spec fn tar_gz_listing(bytes: Seq<u8>) -> core::result::Result<
    Seq<(Seq<char>, Seq<u8>)>,
    Seq<char>,
>;

/// What `tar::Archive` over `xz2`'s decoder reads from a `.tar.xz`: each
/// entry's path and contents, in archive order; or the error text.
pub uninterp spec fn tar_xz_listing(bytes: Seq<u8>) -> core::result::Result<
    Seq<(Seq<char>, Seq<u8>)>,
    Seq<char>,
>;

/// The views of zip entries.
pub open spec fn zip_views(v: Seq<(String, bool, Vec<u8>)>) -> Seq<(Seq<char>, bool, Seq<u8>)> {
    v.map_values(|e: (String, bool, Vec<u8>)| (e.0@, e.1, e.2@))
}

/// The views of `(path, contents)` entries.
pub open spec fn entry_views(v: Seq<(String, Vec<u8>)>) -> Seq<(Seq<char>, Seq<u8>)> {
    v.map_values(|e: (String, Vec<u8>)| (e.0@, e.1@))
}

/// Read every entry of a zip archive.
///
/// `ZipArchive::new`, `len`, `by_index`, `ZipFile::name`, `is_dir` and
/// `read_to_end`; the contract only names the result.
#[verifier::external_body]
fn read_zip(bytes: &[u8]) -> (r: core::result::Result<Vec<(String, bool, Vec<u8>)>, String>)
    ensures
        match r {
            Ok(v) => zip_listing(bytes@) == Ok::<_, Seq<char>>(zip_views(v@)),
            Err(e) => zip_listing(bytes@) == Err::<Seq<(Seq<char>, bool, Seq<u8>)>, _>(e@),
        },
{
    let mut archive = zip::ZipArchive::new(std::io::Cursor::new(bytes)).map_err(|e| e.to_string())?;
    let mut out = Vec::new();
    for index in 0..archive.len() {
        let mut entry = archive.by_index(index).map_err(|e| e.to_string())?;
        let mut data = Vec::new();
        std::io::Read::read_to_end(&mut entry, &mut data).map_err(|e| e.to_string())?;
        out.push((entry.name().to_string(), entry.is_dir(), data));
    }
    Ok(out)
}

/// Read every entry of a gzip-compressed tar archive.
///
/// `flate2::read::GzDecoder::new`, `tar::Archive::new`, `entries`,
/// `Entry::path` and `read_to_end`; the contract only names the result.
#[verifier::external_body]
fn read_tar_gz(bytes: &[u8]) -> (r: core::result::Result<Vec<(String, Vec<u8>)>, String>)
    ensures
        match r {
            Ok(v) => tar_gz_listing(bytes@) == Ok::<_, Seq<char>>(entry_views(v@)),
            Err(e) => tar_gz_listing(bytes@) == Err::<Seq<(Seq<char>, Seq<u8>)>, _>(e@),
        },
{
    let mut archive = tar::Archive::new(flate2::read::GzDecoder::new(bytes));
    let mut out = Vec::new();
    for entry in archive.entries().map_err(|e| e.to_string())? {
        let mut entry = entry.map_err(|e| e.to_string())?;
        let name = entry.path().map_err(|e| e.to_string())?.to_string_lossy().into_owned();
        let mut data = Vec::new();
        std::io::Read::read_to_end(&mut entry, &mut data).map_err(|e| e.to_string())?;
        out.push((name, data));
    }
    Ok(out)
}

/// Read every entry of an xz-compressed tar archive.
///
/// `xz2::read::XzDecoder::new`, `tar::Archive::new`, `entries`, `Entry::path`
/// and `read_to_end`; the contract only names the result.
#[verifier::external_body]
fn read_tar_xz(bytes: &[u8]) -> (r: core::result::Result<Vec<(String, Vec<u8>)>, String>)
    ensures
        match r {
            Ok(v) => tar_xz_listing(bytes@) == Ok::<_, Seq<char>>(entry_views(v@)),
            Err(e) => tar_xz_listing(bytes@) == Err::<Seq<(Seq<char>, Seq<u8>)>, _>(e@),
        },
{
    let mut archive = tar::Archive::new(xz2::read::XzDecoder::new(bytes));
    let mut out = Vec::new();
    for entry in archive.entries().map_err(|e| e.to_string())? {
        let mut entry = entry.map_err(|e| e.to_string())?;
        let name = entry.path().map_err(|e| e.to_string())?.to_string_lossy().into_owned();
        let mut data = Vec::new();
        std::io::Read::read_to_end(&mut entry, &mut data).map_err(|e| e.to_string())?;
        out.push((name, data));
    }
    Ok(out)
}

// ---------------------------------------------------------------------------
// Sanitizing and stripping
// ---------------------------------------------------------------------------

/// An archive-relative path with its `.` and empty components dropped;
/// `None` for a rooted path, one with a `..` component, or one with no
/// component left.
pub open spec fn sanitized(name: Seq<char>) -> Option<Seq<char>> {
    let pieces = split_on(name, '/');
    if absolute(name) || pieces.contains(".."@) {
        None
    } else if normals(pieces).len() == 0 {
        None
    } else {
        Some(join_with(normals(pieces), "/"@))
    }
}

/// Sanitize an archive-relative path; `..`, roots, and empty paths return
/// `None`.
pub fn sanitize_rel(name: &str) -> (r: Option<String>)
    ensures
        match r {
            Some(s) => sanitized(name@) == Some(s@),
            None => sanitized(name@) is None,
        },
{
    if is_absolute(name) {
        return None;
    }
    let cs = chars_of(name);
    let pieces = split_chars(cs.as_slice(), '/');
    let mut out: Vec<Vec<char>> = Vec::new();
    let mut i: usize = 0;
    while i < pieces.len()
        invariant
            i <= pieces@.len(),
            cviews(pieces@) == split_on(name@, '/'),
            cviews(out@) == normals(cviews(pieces@).take(i as int)),
            !cviews(pieces@).take(i as int).contains(".."@),
        decreases pieces@.len() - i,
    {
        let ghost before = cviews(out@);
        proof {
            let t = cviews(pieces@).take(i + 1);
            assert(t.drop_last() =~= cviews(pieces@).take(i as int));
            assert(t.last() == pieces@[i as int]@);
        }
        let p = &pieces[i];
        let is_parent = p.len() == 2 && p[0] == '.' && p[1] == '.';
        if is_parent {
            proof {
                assert(p@ =~= ".."@) by {
                    reveal_strlit("..");
                }
                assert(cviews(pieces@)[i as int] == ".."@);
            }
            return None;
        }
        proof {
            reveal_strlit("..");
            reveal_strlit(".");
            assert(p@ != ".."@);
        }
        let is_cur = p.len() == 1 && p[0] == '.';
        if p.len() > 0 && !is_cur {
            proof {
                assert(p@ != "."@);
            }
            out.push(p.clone());
            assert(cviews(out@) =~= before.push(pieces@[i as int]@));
        } else {
            proof {
                if p.len() > 0 {
                    assert(p@ =~= "."@);
                }
            }
        }
        proof {
            let t = cviews(pieces@).take(i + 1);
            assert forall|k: int| 0 <= k < t.len() implies t[k] != ".."@ by {
                if k < i {
                    assert(t[k] == cviews(pieces@).take(i as int)[k]);
                }
            }
        }
        i = i + 1;
    }
    assert(cviews(pieces@).take(pieces@.len() as int) =~= cviews(pieces@));
    if out.len() == 0 {
        return None;
    }
    let mut sep: Vec<char> = Vec::new();
    sep.push('/');
    proof {
        reveal_strlit("/");
        assert(sep@ =~= "/"@);
    }
    let joined = join_chars(&out, sep.as_slice());
    Some(string_of(joined.as_slice()))
}

/// Whether every entry with a component has the same first component, and
/// at least one has a component.
pub open spec fn uniform_root(entries: Seq<(Seq<char>, Seq<u8>)>) -> bool {
    &&& exists|i: int| 0 <= i < entries.len() && path_normals(#[trigger] entries[i].0).len() > 0
    &&& forall|i: int, j: int|
        0 <= i < entries.len() && 0 <= j < entries.len() && path_normals(entries[i].0).len() > 0
            && path_normals(entries[j].0).len() > 0 ==> #[trigger] path_normals(entries[i].0)[0]
            == #[trigger] path_normals(entries[j].0)[0]
}

/// A path without its first component.
pub open spec fn without_root(rel: Seq<char>) -> Seq<char> {
    if path_normals(rel).len() == 0 {
        Seq::empty()
    } else {
        join_with(path_normals(rel).drop_first(), "/"@)
    }
}

/// The entries with their common leading directory removed.
pub open spec fn stripped_entries(entries: Seq<(Seq<char>, Seq<u8>)>) -> Seq<(Seq<char>, Seq<u8>)> {
    entries.map_values(|e: (Seq<char>, Seq<u8>)| (without_root(e.0), e.1))
}

fn strip_root(rel: &str) -> (r: String)
    ensures
        r@ == without_root(rel@),
{
    let comps = components(rel);
    if comps.len() == 0 {
        return String::new();
    }
    let mut rest: Vec<Vec<char>> = Vec::new();
    let mut i: usize = 1;
    while i < comps.len()
        invariant
            1 <= i <= comps@.len(),
            svs(comps@) == path_normals(rel@),
            cviews(rest@) == svs(comps@).subrange(1, i as int),
        decreases comps@.len() - i,
    {
        let ghost before = cviews(rest@);
        rest.push(chars_of(comps[i].as_str()));
        assert(svs(comps@)[i as int] == comps@[i as int]@);
        assert(cviews(rest@) =~= before.push(comps@[i as int]@));
        i = i + 1;
        assert(cviews(rest@) =~= svs(comps@).subrange(1, i as int));
    }
    assert(svs(comps@).subrange(1, comps@.len() as int) =~= path_normals(rel@).drop_first());
    let mut sep: Vec<char> = Vec::new();
    sep.push('/');
    proof {
        reveal_strlit("/");
        assert(sep@ =~= "/"@);
    }
    let j = join_chars(&rest, sep.as_slice());
    string_of(j.as_slice())
}

/// Strip one leading directory when all entries share it; keep flat
/// archives untouched so nothing is mangled.
pub fn strip_leading_dir(entries: &mut Vec<(String, Vec<u8>)>)
    ensures
        uniform_root(entry_views(old(entries)@)) ==> entry_views(final(entries)@)
            == stripped_entries(entry_views(old(entries)@)),
        !uniform_root(entry_views(old(entries)@)) ==> final(entries)@ == old(entries)@,
{
    let ghost ev = entry_views(entries@);
    let mut first: Option<String> = None;
    let mut same = true;
    let mut i: usize = 0;
    while i < entries.len()
        invariant
            i <= entries@.len(),
            ev == entry_views(entries@),
            first is None ==> forall|k: int| 0 <= k < i ==> path_normals(#[trigger] ev[k].0).len() == 0,
            first matches Some(f) ==> exists|k: int|
                0 <= k < i && path_normals(#[trigger] ev[k].0).len() > 0 && path_normals(ev[k].0)[0]
                    == f@,
            same ==> (first matches Some(f) ==> forall|k: int|
                0 <= k < i && path_normals(#[trigger] ev[k].0).len() > 0 ==> path_normals(ev[k].0)[0]
                    == f@),
            !same ==> !uniform_root(ev),
        decreases entries@.len() - i,
    {
        let comps = components(entries[i].0.as_str());
        assert(ev[i as int].0 == entries@[i as int].0@);
        if comps.len() > 0 {
            assert(svs(comps@)[0] == comps@[0]@);
            match &first {
                None => {
                    first = Some(comps[0].clone());
                },
                Some(f) => {
                    if !crate::text::str_eq(f.as_str(), comps[0].as_str()) {
                        if same {
                            let ghost w = choose|k: int|
                                0 <= k < i && path_normals(#[trigger] ev[k].0).len() > 0
                                    && path_normals(ev[k].0)[0] == f@;
                            assert(path_normals(ev[w].0)[0] != path_normals(ev[i as int].0)[0]);
                        }
                        same = false;
                    }
                },
            }
        }
        i = i + 1;
    }
    if first.is_none() {
        return;
    }
    if !same {
        return;
    }
    proof {
        let f = first->0;
        assert forall|a: int, b: int|
            0 <= a < ev.len() && 0 <= b < ev.len() && path_normals(ev[a].0).len() > 0
                && path_normals(ev[b].0).len() > 0 implies #[trigger] path_normals(ev[a].0)[0]
            == #[trigger] path_normals(ev[b].0)[0] by {}
    }
    let mut k: usize = 0;
    while k < entries.len()
        invariant
            k <= entries@.len(),
            entries@.len() == ev.len(),
            forall|j: int| 0 <= j < k ==> (#[trigger] entry_views(entries@)[j]) == stripped_entries(ev)[j],
            forall|j: int| k <= j < entries@.len() ==> (#[trigger] entry_views(entries@)[j]) == ev[j],
        decreases entries@.len() - k,
    {
        let ghost before = entries@;
        assert(entry_views(entries@)[k as int] == ev[k as int]);
        let new_rel = strip_root(entries[k].0.as_str());
        let data = entries[k].1.clone();
        assert(data@ =~= entries@[k as int].1@);
        entries.set(k, (new_rel, data));
        proof {
            assert(entry_views(entries@)[k as int] == stripped_entries(ev)[k as int]);
            assert forall|j: int| 0 <= j < k implies (#[trigger] entry_views(entries@)[j])
                == stripped_entries(ev)[j] by {
                assert(entries@[j] == before[j]);
                assert(entry_views(before)[j] == stripped_entries(ev)[j]);
            }
            assert forall|j: int| k < j < entries@.len() implies (#[trigger] entry_views(entries@)[j])
                == ev[j] by {
                assert(entries@[j] == before[j]);
                assert(entry_views(before)[j] == ev[j]);
            }
        }
        k = k + 1;
    }
    assert(entry_views(entries@) =~= stripped_entries(ev));
}

// ---------------------------------------------------------------------------
// Archive listing
// ---------------------------------------------------------------------------

/// Whether `bytes` begins with `magic`.
pub open spec fn has_magic(bytes: Seq<u8>, magic: Seq<u8>) -> bool {
    magic.len() <= bytes.len() && bytes.take(magic.len() as int) == magic
}

/// The entries whose paths survive sanitizing, with sanitized paths.
pub open spec fn kept_entries(list: Seq<(Seq<char>, Seq<u8>)>) -> Seq<(Seq<char>, Seq<u8>)>
    decreases list.len(),
{
    if list.len() == 0 {
        Seq::empty()
    } else {
        let rest = kept_entries(list.drop_last());
        match sanitized(list.last().0) {
            Some(rel) => rest.push((rel, list.last().1)),
            None => rest,
        }
    }
}

/// The zip entries that are files, as `(path, contents)`.
pub open spec fn zip_files(list: Seq<(Seq<char>, bool, Seq<u8>)>) -> Seq<(Seq<char>, Seq<u8>)>
    decreases list.len(),
{
    if list.len() == 0 {
        Seq::empty()
    } else {
        let rest = zip_files(list.drop_last());
        if list.last().1 {
            rest
        } else {
            rest.push((list.last().0, list.last().2))
        }
    }
}

/// The entries an archive yields, by its magic bytes: gzip is treated as
/// tar.gz, xz as tar.xz, a zip header as zip; anything else is refused.
pub open spec fn archive_listing(bytes: Seq<u8>) -> core::result::Result<
    Seq<(Seq<char>, Seq<u8>)>,
    Seq<char>,
> {
    if has_magic(bytes, seq![0x1fu8, 0x8bu8]) {
        match tar_gz_listing(bytes) {
            Ok(l) => Ok(kept_entries(l)),
            Err(e) => Err(e),
        }
    } else if has_magic(bytes, seq![0xfdu8, 0x37u8, 0x7au8, 0x58u8, 0x5au8, 0x00u8]) {
        match tar_xz_listing(bytes) {
            Ok(l) => Ok(kept_entries(l)),
            Err(e) => Err(e),
        }
    } else if has_magic(bytes, seq![0x50u8, 0x4bu8, 0x03u8, 0x04u8]) {
        match zip_listing(bytes) {
            Ok(l) => Ok(kept_entries(zip_files(l))),
            Err(e) => Err(e),
        }
    } else {
        Err("unknown archive magic"@)
    }
}

fn starts_with_bytes(bytes: &[u8], magic: &[u8]) -> (r: bool)
    ensures
        r == has_magic(bytes@, magic@),
{
    if magic.len() > bytes.len() {
        return false;
    }
    let mut i: usize = 0;
    while i < magic.len()
        invariant
            i <= magic@.len() <= bytes@.len(),
            forall|k: int| 0 <= k < i ==> bytes@[k] == magic@[k],
        decreases magic@.len() - i,
    {
        if bytes[i] != magic[i] {
            return false;
        }
        i = i + 1;
    }
    assert(bytes@.take(magic@.len() as int) =~= magic@);
    true
}

fn keep_sanitized(list: Vec<(String, Vec<u8>)>) -> (r: Vec<(String, Vec<u8>)>)
    ensures
        entry_views(r@) == kept_entries(entry_views(list@)),
{
    let mut out: Vec<(String, Vec<u8>)> = Vec::new();
    let mut list = list;
    let ghost all = entry_views(list@);
    let mut i: usize = 0;
    while i < list.len()
        invariant
            i <= list@.len(),
            all.len() == list@.len(),
            forall|j: int| i <= j < list@.len() ==> (#[trigger] entry_views(list@)[j]) == all[j],
            entry_views(out@) == kept_entries(all.take(i as int)),
        decreases list@.len() - i,
    {
        let ghost before = entry_views(out@);
        proof {
            let t = all.take(i + 1);
            assert(t.drop_last() =~= all.take(i as int));
            assert(t.last() == all[i as int]);
            assert(entry_views(list@)[i as int] == all[i as int]);
        }
        match sanitize_rel(list[i].0.as_str()) {
            Some(rel) => {
                let data = list[i].1.clone();
                assert(data@ =~= list@[i as int].1@);
                let ghost lv = list@;
                out.push((rel, data));
                assert(entry_views(out@) =~= before.push((rel@, data@)));
                proof {
                    assert forall|j: int| i < j < list@.len() implies (#[trigger] entry_views(
                        list@,
                    )[j]) == all[j] by {}
                }
            },
            None => {},
        }
        i = i + 1;
    }
    assert(all.take(list@.len() as int) =~= all);
    out
}

fn zip_file_entries(list: Vec<(String, bool, Vec<u8>)>) -> (r: Vec<(String, Vec<u8>)>)
    ensures
        entry_views(r@) == zip_files(zip_views(list@)),
{
    let mut out: Vec<(String, Vec<u8>)> = Vec::new();
    let mut list = list;
    let ghost all = zip_views(list@);
    let mut i: usize = 0;
    while i < list.len()
        invariant
            i <= list@.len(),
            all.len() == list@.len(),
            forall|j: int| i <= j < list@.len() ==> (#[trigger] zip_views(list@)[j]) == all[j],
            entry_views(out@) == zip_files(all.take(i as int)),
        decreases list@.len() - i,
    {
        let ghost before = entry_views(out@);
        proof {
            let t = all.take(i + 1);
            assert(t.drop_last() =~= all.take(i as int));
            assert(t.last() == all[i as int]);
            assert(zip_views(list@)[i as int] == all[i as int]);
        }
        if !list[i].1 {
            let name = list[i].0.clone();
            let data = list[i].2.clone();
            assert(data@ =~= list@[i as int].2@);
            out.push((name, data));
            assert(entry_views(out@) =~= before.push((name@, data@)));
            proof {
                assert forall|j: int| i < j < list@.len() implies (#[trigger] zip_views(list@)[j])
                    == all[j] by {}
            }
        }
        i = i + 1;
    }
    assert(all.take(list@.len() as int) =~= all);
    out
}

/// Parse the archive into a `(relative_path, content)` list.
pub fn archive_entries(bytes: &[u8]) -> (r: Result<Vec<(String, Vec<u8>)>>)
    ensures
        match r {
            Ok(v) => archive_listing(bytes@) == Ok::<_, Seq<char>>(entry_views(v@)),
            Err(e) => archive_listing(bytes@) matches Err(msg) && e matches Error::Archive(m)
                && m@ == msg,
        },
{
    let gz: [u8; 2] = [0x1f, 0x8b];
    let xz: [u8; 6] = [0xfd, 0x37, 0x7a, 0x58, 0x5a, 0x00];
    let pk: [u8; 4] = [0x50, 0x4b, 0x03, 0x04];
    assert(gz@ =~= seq![0x1fu8, 0x8bu8]);
    assert(xz@ =~= seq![0xfdu8, 0x37u8, 0x7au8, 0x58u8, 0x5au8, 0x00u8]);
    assert(pk@ =~= seq![0x50u8, 0x4bu8, 0x03u8, 0x04u8]);
    if starts_with_bytes(bytes, gz.as_slice()) {
        match read_tar_gz(bytes) {
            Ok(list) => Ok(keep_sanitized(list)),
            Err(e) => Err(Error::Archive(e)),
        }
    } else if starts_with_bytes(bytes, xz.as_slice()) {
        match read_tar_xz(bytes) {
            Ok(list) => Ok(keep_sanitized(list)),
            Err(e) => Err(Error::Archive(e)),
        }
    } else if starts_with_bytes(bytes, pk.as_slice()) {
        match read_zip(bytes) {
            Ok(list) => Ok(keep_sanitized(zip_file_entries(list))),
            Err(e) => Err(Error::Archive(e)),
        }
    } else {
        Err(Error::Archive("unknown archive magic".to_owned()))
    }
}

/// The entries an archive lays out: its listing, with one uniform leading
/// root directory stripped.
pub open spec fn laid_out(l: Seq<(Seq<char>, Seq<u8>)>) -> Seq<(Seq<char>, Seq<u8>)> {
    if uniform_root(l) {
        stripped_entries(l)
    } else {
        l
    }
}

/// The tree after one entry is written under `dest`: an entry with a path
/// and contents becomes a file (its directories created first); any other
/// entry is skipped.
pub open spec fn written_entry(t: Tree, dest: Seq<char>, e: (Seq<char>, Seq<u8>)) -> Tree {
    if e.0.len() > 0 && e.1.len() > 0 {
        let target = joined(dest, e.0);
        let t1 = match parent_text(target) {
            Some(p) => add_dirs(t, path_normals(p)),
            None => t,
        };
        add_dirs(t1, path_normals(target)).insert(path_key(target), Node::File(e.1))
    } else {
        t
    }
}

/// The tree after the entries are written under `dest`, in order.
pub open spec fn written_entries(t: Tree, dest: Seq<char>, es: Seq<(Seq<char>, Seq<u8>)>) -> Tree
    decreases es.len(),
{
    if es.len() == 0 {
        t
    } else {
        written_entry(written_entries(t, dest, es.drop_last()), dest, es.last())
    }
}

/// Extract `bytes` into the `dest` directory. If the archive has one uniform
/// leading root directory (e.g. Go's official `go/` package), it is stripped
/// so the contents land directly under `dest`. Entries with an empty path or
/// no contents are skipped. On a dependable filesystem only an archive that
/// cannot be read makes the extraction fail.
pub fn extract<F: Fs>(bytes: &[u8], dest: &str, fs: &mut F) -> (r: Result<()>)
    ensures
        r is Ok ==> (archive_listing(bytes@) matches Ok(l) && final(fs).tree() == written_entries(
            add_dirs(old(fs).tree(), path_normals(dest@)),
            dest@,
            laid_out(l),
        )),
        old(fs).dependable() ==> final(fs).dependable(),
        old(fs).dependable() ==> match archive_listing(bytes@) {
            Ok(_) => r is Ok,
            Err(m) => r matches Err(Error::Archive(x)) && x@ == m,
        },
{
    fs.create_dir_all(dest)?;
    let ghost t0 = fs.tree();
    let mut entries = archive_entries(bytes)?;
    strip_leading_dir(&mut entries);
    let ghost es = entry_views(entries@);
    let mut i: usize = 0;
    proof {
        assert(es.take(0) =~= Seq::<(Seq<char>, Seq<u8>)>::empty());
    }
    while i < entries.len()
        invariant
            i <= entries@.len(),
            (archive_listing(bytes@) matches Ok(l) && laid_out(l) == es),
            es == entry_views(entries@),
            old(fs).dependable() ==> fs.dependable(),
            fs.tree() == written_entries(t0, dest@, es.take(i as int)),
        decreases entries@.len() - i,
    {
        let rel = &entries[i].0;
        let data = &entries[i].1;
        proof {
            let t = es.take(i + 1);
            assert(t.drop_last() =~= es.take(i as int));
            assert(t.last() == (rel@, data@));
        }
        if chars_of(rel.as_str()).len() > 0 && data.len() > 0 {
            let target = join(dest, rel.as_str());
            match parent(target.as_str()) {
                Some(p) => {
                    fs.create_dir_all(p.as_str())?;
                },
                None => {},
            }
            fs.write(target.as_str(), data.as_slice())?;
        }
        i = i + 1;
    }
    proof {
        assert(es.take(i as int) =~= es);
    }
    Ok(())
}

// ---------------------------------------------------------------------------
// Confinement
// ---------------------------------------------------------------------------

/// Every `/`-separated piece of a relative path is a normal component: the
/// path is not rooted and holds no empty, `.` or `..` piece.
pub open spec fn all_normal(rel: Seq<char>) -> bool {
    forall|i: int|
        0 <= i < split_on(rel, '/').len() ==> is_normal(#[trigger] split_on(rel, '/')[i])
}

/// An entry path that lands inside `dest`: made of normal components only,
/// its key is the key of `dest` followed by those components.
pub open spec fn lands_inside(dest: Seq<char>, rel: Seq<char>) -> bool {
    all_normal(rel) && path_key(joined(dest, rel)) == path_key(dest) + split_on(rel, '/')
}

/// The normal pieces of pieces free of `/` are normal and free of `/`.
proof fn lemma_normals_free(p: Seq<Seq<char>>)
    requires
        forall|i: int| 0 <= i < p.len() ==> !(#[trigger] p[i]).contains('/'),
    ensures
        forall|i: int|
            0 <= i < normals(p).len() ==> is_normal(#[trigger] normals(p)[i]) && !normals(
                p,
            )[i].contains('/'),
    decreases p.len(),
{
    if p.len() > 0 {
        let d = p.drop_last();
        assert forall|i: int| 0 <= i < d.len() implies !(#[trigger] d[i]).contains('/') by {
            assert(d[i] == p[i]);
        }
        lemma_normals_free(d);
        let nd = normals(d);
        assert(!p[p.len() - 1].contains('/'));
        assert forall|i: int| 0 <= i < normals(p).len() implies is_normal(
            #[trigger] normals(p)[i],
        ) && !normals(p)[i].contains('/') by {
            if i < nd.len() {
                assert(normals(p)[i] == nd[i]);
            } else {
                assert(normals(p)[i] == p.last());
            }
        }
    }
}

/// Pieces that are all normal are their own normal pieces.
proof fn lemma_normals_of_normal(p: Seq<Seq<char>>)
    requires
        forall|i: int| 0 <= i < p.len() ==> is_normal(#[trigger] p[i]),
    ensures
        normals(p) == p,
    decreases p.len(),
{
    if p.len() > 0 {
        let d = p.drop_last();
        assert forall|i: int| 0 <= i < d.len() implies is_normal(#[trigger] d[i]) by {
            assert(d[i] == p[i]);
        }
        lemma_normals_of_normal(d);
        assert(is_normal(p[p.len() - 1]));
        assert(d.push(p.last()) =~= p);
    }
}

/// Resolving pieces followed by normal pieces appends those pieces.
proof fn lemma_resolved_normal_tail(xs: Seq<Seq<char>>, ys: Seq<Seq<char>>)
    requires
        forall|i: int| 0 <= i < ys.len() ==> is_normal(#[trigger] ys[i]),
    ensures
        resolved(xs + ys) == resolved(xs) + ys,
    decreases ys.len(),
{
    if ys.len() == 0 {
        assert(xs + ys =~= xs);
        assert(resolved(xs) + ys =~= resolved(xs));
    } else {
        let d = ys.drop_last();
        assert forall|i: int| 0 <= i < d.len() implies is_normal(#[trigger] d[i]) by {
            assert(d[i] == ys[i]);
        }
        lemma_resolved_normal_tail(xs, d);
        assert((xs + ys).drop_last() =~= xs + d);
        assert((xs + ys).last() == ys.last());
        assert(is_normal(ys[ys.len() - 1]));
        reveal_strlit("..");
        assert(ys.last() != ".."@);
        assert((resolved(xs) + d).push(ys.last()) =~= resolved(xs) + ys);
    }
}

/// Pieces free of `/`, all normal and at least one, joined by `/`: a path
/// of normal components.
proof fn lemma_joined_pieces_normal(ns: Seq<Seq<char>>)
    requires
        ns.len() > 0,
        forall|i: int| 0 <= i < ns.len() ==> is_normal(#[trigger] ns[i]) && !ns[i].contains('/'),
    ensures
        all_normal(join_with(ns, "/"@)),
        split_on(join_with(ns, "/"@), '/') == ns,
{
    reveal_strlit("/");
    assert("/"@ =~= seq!['/']);
    lemma_split_join(ns, '/');
}

/// A sanitized path is made of normal components.
proof fn lemma_sanitized_normal(name: Seq<char>)
    requires
        sanitized(name) is Some,
    ensures
        all_normal(sanitized(name)->0),
{
    let pieces = split_on(name, '/');
    lemma_split_pieces_free(name, '/');
    lemma_normals_free(pieces);
    lemma_joined_pieces_normal(normals(pieces));
}

/// Every kept entry has a path made of normal components.
proof fn lemma_kept_normal(list: Seq<(Seq<char>, Seq<u8>)>)
    ensures
        forall|i: int|
            0 <= i < kept_entries(list).len() ==> all_normal(#[trigger] kept_entries(list)[i].0),
    decreases list.len(),
{
    if list.len() > 0 {
        lemma_kept_normal(list.drop_last());
        let rest = kept_entries(list.drop_last());
        if let Some(rel) = sanitized(list.last().0) {
            lemma_sanitized_normal(list.last().0);
            assert forall|i: int| 0 <= i < kept_entries(list).len() implies all_normal(
                #[trigger] kept_entries(list)[i].0,
            ) by {
                if i < rest.len() {
                    assert(kept_entries(list)[i] == rest[i]);
                }
            }
        }
    }
}

/// A path of normal components without its first component is empty or
/// again a path of normal components.
proof fn lemma_without_root_normal(rel: Seq<char>)
    requires
        all_normal(rel),
    ensures
        without_root(rel).len() == 0 || all_normal(without_root(rel)),
{
    let pieces = split_on(rel, '/');
    lemma_normals_of_normal(pieces);
    lemma_split_pieces_free(rel, '/');
    if pieces.len() > 0 {
        let ds = pieces.drop_first();
        if ds.len() > 0 {
            assert forall|i: int| 0 <= i < ds.len() implies is_normal(#[trigger] ds[i])
                && !ds[i].contains('/') by {
                assert(ds[i] == pieces[i + 1]);
            }
            lemma_joined_pieces_normal(ds);
        } else {
            assert(join_with(ds, "/"@) =~= Seq::<char>::empty());
        }
    }
}

/// A path of normal components joined onto `dest` lands inside `dest`.
proof fn lemma_joined_inside(dest: Seq<char>, rel: Seq<char>)
    requires
        all_normal(rel),
    ensures
        lands_inside(dest, rel),
{
    let r = split_on(rel, '/');
    lemma_split_nonempty(rel, '/');
    assert(is_normal(r[0]));
    if rel.len() > 0 && rel[0] == '/' {
        assert(r[0] =~= Seq::<char>::empty());
    }
    let empty = Seq::<char>::empty();
    assert(split_on(empty, '/') =~= seq![empty]);
    reveal_strlit("..");
    reveal_strlit(".");
    assert(!is_normal(empty));
    if dest.len() == 0 {
        assert(joined(dest, rel) == rel);
        lemma_resolved_normal_tail(Seq::empty(), r);
        assert(Seq::<Seq<char>>::empty() + r =~= r);
        assert(seq![empty].drop_last() =~= Seq::<Seq<char>>::empty());
        assert(path_key(dest) =~= Seq::<Seq<char>>::empty());
    } else if dest.last() == '/' {
        let d = dest.drop_last();
        assert(d + seq!['/'] + rel =~= joined(dest, rel));
        assert(d + seq!['/'] + empty =~= dest);
        lemma_split_concat(d, rel, '/');
        lemma_split_concat(d, empty, '/');
        let sd = split_on(d, '/');
        assert((sd + seq![empty]).drop_last() =~= sd);
        assert(path_key(dest) == resolved(sd));
        lemma_resolved_normal_tail(sd, r);
    } else {
        assert(joined(dest, rel) == dest + seq!['/'] + rel);
        lemma_split_concat(dest, rel, '/');
        lemma_resolved_normal_tail(split_on(dest, '/'), r);
    }
}

/// Archive confinement: every entry that [`extract`] writes out of a readable
/// archive lands inside `dest`. Its path relative to `dest` is made of normal
/// components only (no root, no `..`, no `.` and no empty piece), and the
/// written file's key is the key of `dest` followed by those components.
pub proof fn law_extract_confined(bytes: Seq<u8>, dest: Seq<char>)
    ensures
        archive_listing(bytes) matches Ok(l) ==> forall|i: int|
            0 <= i < laid_out(l).len() && (#[trigger] laid_out(l)[i]).0.len() > 0 ==> lands_inside(
                dest,
                laid_out(l)[i].0,
            ),
{
    if let Ok(l) = archive_listing(bytes) {
        let raw = if has_magic(bytes, seq![0x1fu8, 0x8bu8]) {
            tar_gz_listing(bytes)->Ok_0
        } else if has_magic(bytes, seq![0xfdu8, 0x37u8, 0x7au8, 0x58u8, 0x5au8, 0x00u8]) {
            tar_xz_listing(bytes)->Ok_0
        } else {
            zip_files(zip_listing(bytes)->Ok_0)
        };
        assert(l == kept_entries(raw));
        lemma_kept_normal(raw);
        assert forall|i: int|
            0 <= i < laid_out(l).len() && (#[trigger] laid_out(l)[i]).0.len() > 0 implies lands_inside(
            dest,
            laid_out(l)[i].0,
        ) by {
            if uniform_root(l) {
                assert(laid_out(l)[i].0 == without_root(l[i].0));
                assert(all_normal(kept_entries(raw)[i].0));
                lemma_without_root_normal(l[i].0);
            }
            lemma_joined_inside(dest, laid_out(l)[i].0);
        }
    }
}

/// Only a root shared by every entry is stripped: when two entries of a
/// listing start with different components, the entries are laid out as
/// listed, each at its full path.
pub proof fn law_mixed_roots_not_stripped(l: Seq<(Seq<char>, Seq<u8>)>, i: int, j: int)
    requires
        0 <= i < l.len(),
        0 <= j < l.len(),
        path_normals(l[i].0).len() > 0,
        path_normals(l[j].0).len() > 0,
        path_normals(l[i].0)[0] != path_normals(l[j].0)[0],
    ensures
        laid_out(l) == l,
{
}

/// A root shared by every entry is stripped from each of them.
pub proof fn law_shared_root_stripped(l: Seq<(Seq<char>, Seq<u8>)>, root: Seq<char>, i: int)
    requires
        0 <= i < l.len(),
        path_normals(l[i].0).len() > 0,
        forall|k: int|
            0 <= k < l.len() && path_normals(#[trigger] l[k].0).len() > 0 ==> path_normals(
                l[k].0,
            )[0] == root,
    ensures
        laid_out(l).len() == l.len(),
        forall|k: int|
            0 <= k < l.len() ==> #[trigger] laid_out(l)[k] == (without_root(l[k].0), l[k].1),
        forall|k: int|
            0 <= k < l.len() && path_normals(l[k].0).len() > 0 ==> path_normals(
                #[trigger] laid_out(l)[k].0,
            ) == path_normals(l[k].0).drop_first(),
{
    assert(path_normals(l[i].0).len() > 0);
    assert forall|k: int| 0 <= k < l.len() && path_normals(l[k].0).len() > 0 implies path_normals(
        #[trigger] laid_out(l)[k].0,
    ) == path_normals(l[k].0).drop_first() by {
        lemma_without_root_normals(l[k].0);
    }
}

/// Dropping the first component of a path leaves its other normal
/// components.
proof fn lemma_without_root_normals(rel: Seq<char>)
    requires
        path_normals(rel).len() > 0,
    ensures
        path_normals(without_root(rel)) == path_normals(rel).drop_first(),
{
    let pieces = split_on(rel, '/');
    lemma_split_pieces_free(rel, '/');
    lemma_normals_free(pieces);
    let ns = normals(pieces);
    let empty = Seq::<char>::empty();
    assert(split_on(empty, '/') =~= seq![empty]);
    assert(!is_normal(empty));
    assert(seq![empty].drop_last() =~= Seq::<Seq<char>>::empty());
    assert(seq![empty].last() == empty);
    assert(normals(Seq::<Seq<char>>::empty()) =~= Seq::<Seq<char>>::empty());
    assert(normals(seq![empty]) =~= Seq::<Seq<char>>::empty());
    {
        let ds = ns.drop_first();
        if ds.len() == 0 {
            assert(join_with(ds, "/"@) =~= empty);
            assert(without_root(rel) =~= empty);
        } else {
            assert forall|q: int| 0 <= q < ds.len() implies is_normal(#[trigger] ds[q])
                && !ds[q].contains('/') by {
                assert(ds[q] == ns[q + 1]);
            }
            lemma_joined_pieces_normal(ds);
            lemma_normals_of_normal(ds);
        }
    }
}

} // verus!
