//! Abstract filesystem layer.
//!
//! The engine never touches the disk directly: it goes through the [`Fs`]
//! trait, so rollback can be replayed against the in-memory [`MemFs`], whose
//! behaviour is specified here over a map from lexical path keys to nodes.

use vstd::prelude::*;

use crate::error::{Error, Result};
use crate::order::{lemma_text_order, text_less, text_lt};
use crate::path::{components, key, path_key, path_normals, svs};
use crate::text::{chars_of, debug_quoted, concat_chars, cviews, join_chars, join_with, str_eq, string_of};

verus! {

/// Filesystem operations available to the engine.
///
/// A filesystem is seen as a [`Tree`] from lexical path keys to nodes. Every
/// implementation promises that a call that succeeds reads or changes the
/// tree exactly as its clause says; a failing change keeps every entry that
/// lies outside the path it names (for a rename, its target), though it may
/// add directories on the way. A
/// [`Fs::dependable`] filesystem fails no call, save a read of what is not a
/// file.
pub trait Fs {
    /// The tree the filesystem holds.
    ///
    /// Code generic over the filesystem never sees this default body; it lets
    /// a filesystem written outside the verified library, which has no means
    /// to describe its contents, implement the trait.
    closed spec fn tree(&self) -> Tree {
        Map::empty()
    }

    /// Whether the filesystem carries out every call: reads of files it
    /// holds, listings, existence checks and every change succeed.
    ///
    /// Code generic over the filesystem never sees this default body; a
    /// filesystem written outside the verified library promises nothing by
    /// it, since disks fill up and permissions change.
    closed spec fn dependable(&self) -> bool {
        false
    }

    /// Read all bytes of a file.
    fn read(&self, path: &str) -> (r: Result<Vec<u8>>)
        ensures
            r matches Ok(d) ==> self.tree().contains_key(path_key(path@)) && self.tree()[path_key(
                path@,
            )] == Node::File(d@),
            self.dependable() && self.tree().contains_key(path_key(path@)) && self.tree()[path_key(
                path@,
            )] is File ==> r is Ok,
    ;

    /// Overwrite a file (creating it if missing, implicitly creating parents).
    fn write(&mut self, path: &str, data: &[u8]) -> (r: Result<()>)
        ensures
            r is Ok ==> final(self).tree() == add_dirs(old(self).tree(), path_normals(path@)).insert(
                path_key(path@),
                Node::File(data@),
            ),
            r is Err ==> kept_outside(old(self).tree(), final(self).tree(), path_key(path@)),
            old(self).dependable() ==> r is Ok && final(self).dependable(),
    ;

    /// Whether the path exists (file or directory).
    fn path_exists(&self, path: &str) -> (r: Result<bool>)
        ensures
            r matches Ok(b) ==> b == self.tree().contains_key(path_key(path@)),
            self.dependable() ==> r is Ok,
    ;

    /// Recursively create directories.
    fn create_dir_all(&mut self, path: &str) -> (r: Result<()>)
        ensures
            r is Ok ==> final(self).tree() == add_dirs(old(self).tree(), path_normals(path@)),
            r is Err ==> kept_outside(old(self).tree(), final(self).tree(), path_key(path@)),
            old(self).dependable() ==> r is Ok && final(self).dependable(),
    ;

    /// Move a file or directory to the target (removing an existing target first).
    fn rename(&mut self, from: &str, to: &str) -> (r: Result<()>)
        ensures
            r is Ok ==> final(self).tree() == moved(old(self).tree(), path_key(from@), path_key(to@)),
            r is Err ==> kept_outside(old(self).tree(), final(self).tree(), path_key(to@)),
            old(self).dependable() ==> r is Ok && final(self).dependable(),
    ;

    /// Recursively remove a directory.
    fn remove_dir_all(&mut self, path: &str) -> (r: Result<()>)
        ensures
            r is Ok ==> final(self).tree() == drop_under(old(self).tree(), path_key(path@)),
            r is Err ==> kept_outside(old(self).tree(), final(self).tree(), path_key(path@)),
            old(self).dependable() ==> r is Ok && final(self).dependable(),
    ;

    /// Remove a single file.
    fn remove_file(&mut self, path: &str) -> (r: Result<()>)
        ensures
            r is Ok ==> final(self).tree() == old(self).tree().remove(path_key(path@)),
            r is Err ==> kept_outside(old(self).tree(), final(self).tree(), path_key(path@)),
            old(self).dependable() ==> r is Ok && final(self).dependable(),
    ;

    /// List the direct children as `(name, is_dir)`; no name comes twice.
    fn read_dir(&self, path: &str) -> (r: Result<Vec<(String, bool)>>)
        ensures
            r matches Ok(v) ==> listing(v@).to_set() == children(self.tree(), path_key(path@)),
            r matches Ok(v) ==> entry_names(v@).no_duplicates(),
            self.dependable() ==> r is Ok,
    ;
}

/// What a path holds in the in-memory filesystem.
pub ghost enum Node {
    File(Seq<u8>),
    Dir,
}

/// A stored node.
#[derive(Clone, Debug)]
pub enum MemNode {
    File(Vec<u8>),
    Dir,
}

/// The abstract value of a stored node.
pub open spec fn node_view(n: MemNode) -> Node {
    match n {
        MemNode::File(d) => Node::File(d@),
        MemNode::Dir => Node::Dir,
    }
}

/// A map from path keys to nodes.
pub type Tree = Map<Seq<Seq<char>>, Node>;

/// Whether every entry of `before` that lies outside `k` is still in `after`,
/// unchanged.
pub open spec fn kept_outside(before: Tree, after: Tree, k: Seq<Seq<char>>) -> bool {
    forall|x: Seq<Seq<char>>|
        #[trigger] before.contains_key(x) && !under(x, k) ==> after.contains_key(x) && after[x]
            == before[x]
}

/// Whether key `k` lies at or below `pre`.
pub open spec fn under(k: Seq<Seq<char>>, pre: Seq<Seq<char>>) -> bool {
    pre.len() <= k.len() && k.take(pre.len() as int) == pre
}

/// The tree without everything at or below `pre`.
pub open spec fn drop_under(m: Tree, pre: Seq<Seq<char>>) -> Tree {
    Map::new(|k: Seq<Seq<char>>| m.contains_key(k) && !under(k, pre), |k: Seq<Seq<char>>| m[k])
}

/// The tree with a directory at every non-empty prefix of `parts` that holds
/// nothing yet, shortest first.
pub open spec fn add_dirs(m: Tree, parts: Seq<Seq<char>>) -> Tree
    decreases parts.len(),
{
    if parts.len() == 0 {
        m
    } else {
        let m1 = add_dirs(m, parts.drop_last());
        if m1.contains_key(parts) {
            m1
        } else {
            m1.insert(parts, Node::Dir)
        }
    }
}

/// The tree after a directory tree is removed where it exists: everything at
/// or below `k` goes when `k` is present, nothing changes otherwise.
pub open spec fn cleared(m: Tree, k: Seq<Seq<char>>) -> Tree {
    if m.contains_key(k) {
        drop_under(m, k)
    } else {
        m
    }
}

/// The tree after moving everything at or below `from` to `to`, having first
/// removed everything at or below `to`.
pub open spec fn moved(m: Tree, from: Seq<Seq<char>>, to: Seq<Seq<char>>) -> Tree {
    let m1 = drop_under(m, to);
    Map::new(
        |k: Seq<Seq<char>>|
            (m1.contains_key(k) && !under(k, from)) || (under(k, to) && m1.contains_key(
                from + k.skip(to.len() as int),
            ) && under(from + k.skip(to.len() as int), from)),
        |k: Seq<Seq<char>>|
            if m1.contains_key(k) && !under(k, from) {
                m1[k]
            } else {
                m1[from + k.skip(to.len() as int)]
            },
    )
}

/// Moving leaves alone an entry that lies under neither end.
pub proof fn lemma_moved_keeps(m: Tree, from: Seq<Seq<char>>, to: Seq<Seq<char>>, k: Seq<Seq<char>>)
    requires
        m.contains_key(k),
        !under(k, from),
        !under(k, to),
    ensures
        moved(m, from, to).contains_key(k),
        moved(m, from, to)[k] == m[k],
{
}

/// Moving puts what was at `from` at `to`.
pub proof fn lemma_moved_lands(m: Tree, from: Seq<Seq<char>>, to: Seq<Seq<char>>)
    requires
        m.contains_key(from),
        !under(from, to),
    ensures
        moved(m, from, to).contains_key(to),
        moved(m, from, to)[to] == m[from],
{
    assert(to.take(to.len() as int) =~= to);
    assert(from.take(from.len() as int) =~= from);
    assert(from + to.skip(to.len() as int) =~= from);
}

/// Adding directories keeps every entry already there.
pub proof fn lemma_add_dirs_keeps(m: Tree, parts: Seq<Seq<char>>, k: Seq<Seq<char>>)
    requires
        m.contains_key(k),
    ensures
        add_dirs(m, parts).contains_key(k),
        add_dirs(m, parts)[k] == m[k],
    decreases parts.len(),
{
    if parts.len() > 0 {
        lemma_add_dirs_keeps(m, parts.drop_last(), k);
    }
}

/// Two different keys of one length do not lie under each other.
pub proof fn lemma_same_len_not_under(a: Seq<Seq<char>>, b: Seq<Seq<char>>)
    requires
        a.len() == b.len(),
        a != b,
    ensures
        !under(a, b),
{
    if under(a, b) {
        assert(a.take(b.len() as int) =~= a);
    }
}

/// The direct children of `base` as `(name, is_dir)`.
pub open spec fn children(m: Tree, base: Seq<Seq<char>>) -> Set<(Seq<char>, bool)> {
    Set::new(
        |c: (Seq<char>, bool)|
            exists|k: Seq<Seq<char>>|
                #![trigger m.contains_key(k)]
                m.contains_key(k) && k.len() == base.len() + 1 && under(k, base) && k.last() == c.0
                    && c.1 == (m[k] == Node::Dir),
    )
}

type Entry = (Vec<String>, MemNode);

/// The key of a stored entry.
pub open spec fn ekey(e: (Vec<String>, MemNode)) -> Seq<Seq<char>> {
    svs(e.0@)
}

/// The tree an entry list denotes.
pub open spec fn tree_of(v: Seq<(Vec<String>, MemNode)>) -> Tree {
    Map::new(
        |k: Seq<Seq<char>>| exists|i: int| 0 <= i < v.len() && ekey(#[trigger] v[i]) == k,
        |k: Seq<Seq<char>>|
            node_view(v[choose|i: int| 0 <= i < v.len() && ekey(#[trigger] v[i]) == k].1),
    )
}

/// Keys are unique.
pub open spec fn unique(v: Seq<(Vec<String>, MemNode)>) -> bool {
    forall|i: int, j: int| 0 <= i < v.len() && 0 <= j < v.len() && i != j ==> ekey(v[i]) != ekey(v[j])
}

proof fn lemma_tree_at(v: Seq<(Vec<String>, MemNode)>, i: int)
    requires
        unique(v),
        0 <= i < v.len(),
    ensures
        tree_of(v).contains_key(ekey(v[i])),
        tree_of(v)[ekey(v[i])] == node_view(v[i].1),
{
    let k = ekey(v[i]);
    assert(0 <= i < v.len() && ekey(v[i]) == k);
    let j = choose|j: int| 0 <= j < v.len() && ekey(#[trigger] v[j]) == k;
    assert(j == i);
}

proof fn lemma_tree_absent(v: Seq<(Vec<String>, MemNode)>, k: Seq<Seq<char>>)
    requires
        forall|i: int| 0 <= i < v.len() ==> ekey(#[trigger] v[i]) != k,
    ensures
        !tree_of(v).contains_key(k),
{
}

/// Two trees agree when every entry of one list is described by the other tree
/// and the list covers every key of the tree.
proof fn lemma_tree_eq(v: Seq<(Vec<String>, MemNode)>, t: Tree)
    requires
        unique(v),
        forall|i: int|
            0 <= i < v.len() ==> #[trigger] t.contains_key(ekey(v[i])) && t[ekey(v[i])]
                == node_view(v[i].1),
        forall|k: Seq<Seq<char>>|
            t.contains_key(k) ==> exists|i: int| 0 <= i < v.len() && ekey(#[trigger] v[i]) == k,
    ensures
        tree_of(v) == t,
{
    assert forall|k: Seq<Seq<char>>| tree_of(v).contains_key(k) <==> t.contains_key(k) by {
        if tree_of(v).contains_key(k) {
            let i = choose|i: int| 0 <= i < v.len() && ekey(#[trigger] v[i]) == k;
            assert(t.contains_key(ekey(v[i])));
        }
    }
    assert forall|k: Seq<Seq<char>>| tree_of(v).contains_key(k) implies tree_of(v)[k] == t[k] by {
        let i = choose|i: int| 0 <= i < v.len() && ekey(#[trigger] v[i]) == k;
        lemma_tree_at(v, i);
        assert(t.contains_key(ekey(v[i])));
    }
    assert(tree_of(v) =~= t);
}

fn keys_eq(a: &Vec<String>, b: &Vec<String>) -> (r: bool)
    ensures
        r == (svs(a@) == svs(b@)),
{
    if a.len() != b.len() {
        return false;
    }
    let mut i: usize = 0;
    while i < a.len()
        invariant
            i <= a@.len(),
            a@.len() == b@.len(),
            forall|k: int| 0 <= k < i ==> a@[k]@ == b@[k]@,
        decreases a@.len() - i,
    {
        if !str_eq(a[i].as_str(), b[i].as_str()) {
            assert(svs(a@)[i as int] != svs(b@)[i as int]);
            return false;
        }
        i = i + 1;
    }
    assert(svs(a@) =~= svs(b@));
    true
}

fn is_under(k: &Vec<String>, pre: &Vec<String>) -> (r: bool)
    ensures
        r == under(svs(k@), svs(pre@)),
{
    if pre.len() > k.len() {
        return false;
    }
    let mut i: usize = 0;
    while i < pre.len()
        invariant
            i <= pre@.len() <= k@.len(),
            forall|m: int| 0 <= m < i ==> k@[m]@ == pre@[m]@,
        decreases pre@.len() - i,
    {
        if !str_eq(k[i].as_str(), pre[i].as_str()) {
            assert(svs(k@).take(pre@.len() as int)[i as int] != svs(pre@)[i as int]);
            return false;
        }
        i = i + 1;
    }
    assert(svs(k@).take(pre@.len() as int) =~= svs(pre@));
    true
}

fn copy_strings(v: &Vec<String>) -> (r: Vec<String>)
    ensures
        svs(r@) == svs(v@),
{
    let mut out: Vec<String> = Vec::new();
    let mut i: usize = 0;
    while i < v.len()
        invariant
            i <= v@.len(),
            svs(out@) == svs(v@).take(i as int),
        decreases v@.len() - i,
    {
        let ghost prev = out@;
        let c = v[i].clone();
        out.push(c);
        proof {
            assert(out@ == prev.push(c));
            assert(svs(out@) =~= svs(prev).push(c@));
            assert(svs(v@).take(i + 1) =~= svs(v@).take(i as int).push(v@[i as int]@));
        }
        i = i + 1;
    }
    assert(svs(v@).take(v@.len() as int) =~= svs(v@));
    out
}

/// A key written as a relative path.
fn key_text(k: &Vec<String>) -> (r: String)
    ensures
        r@ == join_with(svs(k@), seq!['/']),
{
    let mut parts: Vec<Vec<char>> = Vec::new();
    let mut j: usize = 0;
    while j < k.len()
        invariant
            j <= k@.len(),
            cviews(parts@) == svs(k@).take(j as int),
        decreases k@.len() - j,
    {
        let ghost prev = parts@;
        let c = chars_of(k[j].as_str());
        parts.push(c);
        proof {
            assert(parts@ == prev.push(c));
            assert(cviews(parts@) =~= cviews(prev).push(c@));
            assert(svs(k@).take(j + 1) =~= svs(k@).take(j as int).push(k@[j as int]@));
        }
        j = j + 1;
    }
    assert(svs(k@).take(k@.len() as int) =~= svs(k@));
    let mut sep: Vec<char> = Vec::new();
    sep.push('/');
    assert(sep@ =~= seq!['/']);
    string_of(join_chars(&parts, sep.as_slice()).as_slice())
}

fn copy_node(n: &MemNode) -> (r: MemNode)
    ensures
        node_view(r) == node_view(*n),
{
    match n {
        MemNode::File(d) => MemNode::File(d.clone()),
        MemNode::Dir => MemNode::Dir,
    }
}

/// The stored entries of the in-memory filesystem, keys unique.
#[derive(Debug)]
pub struct Entries {
    entries: Vec<(Vec<String>, MemNode)>,
}

impl Entries {
    /// The tree these entries denote.
    pub closed spec fn tree(&self) -> Tree {
        tree_of(self.entries@)
    }

    /// Keys are unique.
    pub closed spec fn wf(&self) -> bool {
        unique(self.entries@)
    }

    fn empty() -> (r: Entries)
        ensures
            r.wf(),
            r.tree() == Map::<Seq<Seq<char>>, Node>::empty(),
    {
        let r = Entries { entries: Vec::new() };
        assert(tree_of(r.entries@) =~= Map::<Seq<Seq<char>>, Node>::empty());
        r
    }

    fn find(&self, k: &Vec<String>) -> (r: Option<usize>)
        ensures
            r matches Some(i) ==> i < self.entries@.len() && ekey(self.entries@[i as int]) == svs(
                k@,
            ),
            r is None ==> forall|i: int|
                0 <= i < self.entries@.len() ==> ekey(#[trigger] self.entries@[i]) != svs(k@),
    {
        find_in(&self.entries, k)
    }
}

fn find_in(entries: &Vec<(Vec<String>, MemNode)>, k: &Vec<String>) -> (r: Option<usize>)
    ensures
        r matches Some(i) ==> i < entries@.len() && ekey(entries@[i as int]) == svs(k@),
        r is None ==> forall|i: int| 0 <= i < entries@.len() ==> ekey(#[trigger] entries@[i]) != svs(k@),
{
    let mut i: usize = 0;
    while i < entries.len()
        invariant
            i <= entries@.len(),
            forall|j: int| 0 <= j < i ==> ekey(#[trigger] entries@[j]) != svs(k@),
        decreases entries@.len() - i,
    {
        if keys_eq(&entries[i].0, k) {
            return Some(i);
        }
        i = i + 1;
    }
    None
}

impl Entries {
    /// Insert a node at `k`, replacing what was there.
    fn put(&mut self, k: Vec<String>, node: MemNode)
        requires
            old(self).wf(),
        ensures
            final(self).wf(),
            final(self).tree() == old(self).tree().insert(svs(k@), node_view(node)),
    {
        let ghost kv = svs(k@);
        let ghost nv = node_view(node);
        let ghost t = old(self).tree().insert(kv, nv);
        match self.find(&k) {
            Some(i) => {
                let ghost before = self.entries@;
                self.entries.set(i, (k, node));
                proof {
                    let v = self.entries@;
                    assert(v == before.update(i as int, (k, node)));
                    assert forall|a: int| 0 <= a < v.len() implies #[trigger] t.contains_key(
                        ekey(v[a]),
                    ) && t[ekey(v[a])] == node_view(v[a].1) by {
                        if a != i {
                            lemma_tree_at(before, a);
                        }
                    }
                    assert forall|kk: Seq<Seq<char>>| t.contains_key(kk) implies exists|a: int|
                        0 <= a < v.len() && ekey(#[trigger] v[a]) == kk by {
                        if kk == kv {
                            assert(ekey(v[i as int]) == kk);
                        } else {
                            let a = choose|a: int|
                                0 <= a < before.len() && ekey(#[trigger] before[a]) == kk;
                            assert(ekey(v[a]) == kk);
                        }
                    }
                    lemma_tree_eq(v, t);
                }
            },
            None => {
                let ghost before = self.entries@;
                self.entries.push((k, node));
                proof {
                    let v = self.entries@;
                    assert(forall|a: int| 0 <= a < before.len() ==> v[a] == before[a]);
                    assert forall|a: int| 0 <= a < v.len() implies #[trigger] t.contains_key(
                        ekey(v[a]),
                    ) && t[ekey(v[a])] == node_view(v[a].1) by {
                        if a < before.len() {
                            lemma_tree_at(before, a);
                        }
                    }
                    assert forall|kk: Seq<Seq<char>>| t.contains_key(kk) implies exists|a: int|
                        0 <= a < v.len() && ekey(#[trigger] v[a]) == kk by {
                        if kk == kv {
                            assert(ekey(v[before.len() as int]) == kk);
                        } else {
                            let a = choose|a: int|
                                0 <= a < before.len() && ekey(#[trigger] before[a]) == kk;
                            assert(ekey(v[a]) == kk);
                        }
                    }
                    lemma_tree_eq(v, t);
                }
            },
        }
    }

    /// Create a directory at every prefix of the parts, shortest first.
    fn ensure_dirs(&mut self, parts: &Vec<String>)
        requires
            old(self).wf(),
        ensures
            final(self).wf(),
            final(self).tree() == add_dirs(old(self).tree(), svs(parts@)),
    {
        let mut cur: Vec<String> = Vec::new();
        let mut i: usize = 0;
        assert(svs(parts@).take(0) =~= Seq::<Seq<char>>::empty());
        while i < parts.len()
            invariant
                i <= parts@.len(),
                self.wf(),
                svs(cur@) == svs(parts@).take(i as int),
                self.tree() == add_dirs(old(self).tree(), svs(parts@).take(i as int)),
            decreases parts@.len() - i,
        {
            cur.push(parts[i].clone());
            i = i + 1;
            proof {
                assert(svs(cur@) =~= svs(parts@).take(i as int));
                assert(svs(parts@).take(i as int).drop_last() =~= svs(parts@).take(i - 1));
            }
            let k = copy_strings(&cur);
            match self.find(&k) {
                Some(j) => {
                    proof {
                        lemma_tree_at(self.entries@, j as int);
                    }
                },
                None => {
                    proof {
                        lemma_tree_absent(self.entries@, svs(k@));
                    }
                    self.put(k, MemNode::Dir);
                },
            }
        }
        assert(svs(parts@).take(parts@.len() as int) =~= svs(parts@));
    }

    /// Remove every entry at or below `pre`.
    fn drop_below(&mut self, pre: &Vec<String>)
        requires
            old(self).wf(),
        ensures
            final(self).wf(),
            final(self).tree() == drop_under(old(self).tree(), svs(pre@)),
    {
        let ghost before = self.entries@;
        let ghost t = drop_under(old(self).tree(), svs(pre@));
        let mut kept: Vec<(Vec<String>, MemNode)> = Vec::new();
        let ghost mut origin: Seq<int> = Seq::empty();
        let mut i: usize = 0;
        while i < self.entries.len()
            invariant
                i <= before.len(),
                self.entries@ == before,
                unique(before),
                kept@.len() == origin.len(),
                forall|a: int|
                    0 <= a < kept@.len() ==> 0 <= #[trigger] origin[a] < i && ekey(kept@[a])
                        == ekey(before[origin[a]]) && node_view(kept@[a].1) == node_view(
                        before[origin[a]].1,
                    ) && !under(ekey(before[origin[a]]), svs(pre@)),
                forall|a: int, b: int| 0 <= a < b < kept@.len() ==> origin[a] < origin[b],
                forall|j: int|
                    0 <= j < i && !under(ekey(#[trigger] before[j]), svs(pre@)) ==> exists|a: int|
                        0 <= a < kept@.len() && origin[a] == j,
            decreases before.len() - i,
        {
            if !is_under(&self.entries[i].0, pre) {
                let e = (copy_strings(&self.entries[i].0), copy_node(&self.entries[i].1));
                let ghost old_origin = origin;
                kept.push(e);
                proof {
                    origin = origin.push(i as int);
                    assert forall|j: int|
                        0 <= j < i + 1 && !under(ekey(#[trigger] before[j]), svs(pre@)) implies exists|a: int|
                        0 <= a < kept@.len() && origin[a] == j by {
                        if j == i {
                            assert(origin[kept@.len() - 1] == j);
                        } else {
                            let a = choose|a: int| 0 <= a < kept@.len() - 1 && old_origin[a] == j;
                            assert(origin[a] == j);
                        }
                    }
                }
            }
            i = i + 1;
        }
        proof {
            let v = kept@;
            assert(unique(v)) by {
                assert forall|a: int, b: int|
                    0 <= a < v.len() && 0 <= b < v.len() && a != b implies ekey(v[a]) != ekey(
                    v[b],
                ) by {
                    assert(origin[a] != origin[b]);
                }
            }
            assert forall|a: int| 0 <= a < v.len() implies #[trigger] t.contains_key(ekey(v[a]))
                && t[ekey(v[a])] == node_view(v[a].1) by {
                lemma_tree_at(before, origin[a]);
            }
            assert forall|kk: Seq<Seq<char>>| t.contains_key(kk) implies exists|a: int|
                0 <= a < v.len() && ekey(#[trigger] v[a]) == kk by {
                let j = choose|j: int| 0 <= j < before.len() && ekey(#[trigger] before[j]) == kk;
                let a = choose|a: int| 0 <= a < v.len() && origin[a] == j;
                assert(ekey(v[a]) == kk);
            }
            lemma_tree_eq(v, t);
        }
        self.entries = kept;
    }
}


fn rebase(k: &Vec<String>, from_len: usize, to: &Vec<String>) -> (r: Vec<String>)
    requires
        from_len <= k@.len(),
    ensures
        svs(r@) == svs(to@) + svs(k@).skip(from_len as int),
{
    let mut out = copy_strings(to);
    let mut i: usize = from_len;
    while i < k.len()
        invariant
            from_len <= i <= k@.len(),
            svs(out@) == svs(to@) + svs(k@).subrange(from_len as int, i as int),
        decreases k@.len() - i,
    {
        let ghost prev = out@;
        let c = k[i].clone();
        out.push(c);
        proof {
            assert(out@ == prev.push(c));
            assert(svs(out@) =~= svs(prev).push(c@));
            assert(svs(k@).subrange(from_len as int, i + 1) =~= svs(k@).subrange(
                from_len as int,
                i as int,
            ).push(k@[i as int]@));
        }
        i = i + 1;
    }
    assert(svs(k@).subrange(from_len as int, k@.len() as int) =~= svs(k@).skip(from_len as int));
    out
}

proof fn lemma_under_split(k: Seq<Seq<char>>, pre: Seq<Seq<char>>)
    requires
        under(k, pre),
    ensures
        k == pre + k.skip(pre.len() as int),
        under(pre + k.skip(pre.len() as int), pre),
{
    assert(k =~= pre + k.skip(pre.len() as int));
}

proof fn lemma_rebase_keys(a: Seq<Seq<char>>, to: Seq<Seq<char>>)
    ensures
        under(to + a, to),
        (to + a).skip(to.len() as int) == a,
{
    assert((to + a).take(to.len() as int) =~= to);
    assert((to + a).skip(to.len() as int) =~= a);
}

/// The names of a listing of `(name, is_dir)` pairs.
pub open spec fn entry_names(v: Seq<(String, bool)>) -> Seq<Seq<char>> {
    v.map_values(|p: (String, bool)| p.0@)
}

/// The view of a listing of `(name, is_dir)` pairs.
pub open spec fn listing(v: Seq<(String, bool)>) -> Seq<(Seq<char>, bool)> {
    v.map_values(|p: (String, bool)| (p.0@, p.1))
}

impl Entries {
    /// Move every entry at or below `from` to the same place below `to`.
    fn move_below(&mut self, from: &Vec<String>, to: &Vec<String>)
        requires
            old(self).wf(),
            forall|k: Seq<Seq<char>>| #[trigger]
                old(self).tree().contains_key(k) ==> !under(k, svs(to@)),
        ensures
            final(self).wf(),
            final(self).tree() == moved(old(self).tree(), svs(from@), svs(to@)),
    {
        let ghost before = self.entries@;
        let ghost m1 = old(self).tree();
        let ghost f = svs(from@);
        let ghost tk = svs(to@);
        let ghost t = moved(m1, f, tk);
        proof {
            assert(drop_under(m1, tk) =~= m1);
        }
        let mut kept: Vec<(Vec<String>, MemNode)> = Vec::new();
        let mut shifted: Vec<(Vec<String>, MemNode)> = Vec::new();
        let ghost mut ko: Seq<int> = Seq::empty();
        let ghost mut so: Seq<int> = Seq::empty();
        let mut i: usize = 0;
        while i < self.entries.len()
            invariant
                i <= before.len(),
                self.entries@ == before,
                unique(before),
                m1 == tree_of(before),
                f == svs(from@),
                tk == svs(to@),
                kept@.len() == ko.len(),
                shifted@.len() == so.len(),
                forall|a: int|
                    0 <= a < kept@.len() ==> 0 <= #[trigger] ko[a] < i && ekey(kept@[a]) == ekey(
                        before[ko[a]],
                    ) && node_view(kept@[a].1) == node_view(before[ko[a]].1) && !under(
                        ekey(before[ko[a]]),
                        f,
                    ),
                forall|a: int|
                    0 <= a < shifted@.len() ==> 0 <= #[trigger] so[a] < i && under(
                        ekey(before[so[a]]),
                        f,
                    ) && ekey(shifted@[a]) == tk + ekey(before[so[a]]).skip(f.len() as int)
                        && node_view(shifted@[a].1) == node_view(before[so[a]].1),
                forall|a: int, b: int| 0 <= a < b < kept@.len() ==> ko[a] < ko[b],
                forall|a: int, b: int| 0 <= a < b < shifted@.len() ==> so[a] < so[b],
                forall|j: int|
                    0 <= j < i && !under(ekey(#[trigger] before[j]), f) ==> exists|a: int|
                        0 <= a < kept@.len() && ko[a] == j,
                forall|j: int|
                    0 <= j < i && under(ekey(#[trigger] before[j]), f) ==> exists|a: int|
                        0 <= a < shifted@.len() && so[a] == j,
            decreases before.len() - i,
        {
            if is_under(&self.entries[i].0, from) {
                let nk = rebase(&self.entries[i].0, from.len(), to);
                let e = (nk, copy_node(&self.entries[i].1));
                let ghost old_so = so;
                shifted.push(e);
                proof {
                    so = so.push(i as int);
                    assert forall|j: int|
                        0 <= j < i + 1 && under(ekey(#[trigger] before[j]), f) implies exists|a: int|
                        0 <= a < shifted@.len() && so[a] == j by {
                        if j == i {
                            assert(so[shifted@.len() - 1] == j);
                        } else {
                            let a = choose|a: int| 0 <= a < shifted@.len() - 1 && old_so[a] == j;
                            assert(so[a] == j);
                        }
                    }
                }
            } else {
                let e = (copy_strings(&self.entries[i].0), copy_node(&self.entries[i].1));
                let ghost old_ko = ko;
                kept.push(e);
                proof {
                    ko = ko.push(i as int);
                    assert forall|j: int|
                        0 <= j < i + 1 && !under(ekey(#[trigger] before[j]), f) implies exists|a: int|
                        0 <= a < kept@.len() && ko[a] == j by {
                        if j == i {
                            assert(ko[kept@.len() - 1] == j);
                        } else {
                            let a = choose|a: int| 0 <= a < kept@.len() - 1 && old_ko[a] == j;
                            assert(ko[a] == j);
                        }
                    }
                }
            }
            i = i + 1;
        }
        let ghost kv = kept@;
        let ghost sv = shifted@;
        let nk = kept.len();
        kept.append(&mut shifted);
        proof {
            let v = kept@;
            assert(v =~= kv + sv);
            assert forall|a: int| 0 <= a < kv.len() implies v[a] == kv[a] by {}
            assert forall|a: int| 0 <= a < sv.len() implies v[kv.len() + a] == sv[a] by {}
            // every entry of the source lies outside `to`
            assert forall|j: int| 0 <= j < before.len() implies !under(ekey(#[trigger] before[j]), tk) by {
                lemma_tree_at(before, j);
            }
            assert forall|a: int| 0 <= a < sv.len() implies under(ekey(#[trigger] sv[a]), tk) && ekey(
                sv[a],
            ).skip(tk.len() as int) == ekey(before[so[a]]).skip(f.len() as int) by {
                lemma_rebase_keys(ekey(before[so[a]]).skip(f.len() as int), tk);
            }
            assert(unique(v)) by {
                assert forall|a: int, b: int|
                    0 <= a < v.len() && 0 <= b < v.len() && a != b implies ekey(v[a]) != ekey(
                    v[b],
                ) by {
                    if a < kv.len() && b < kv.len() {
                        assert(ko[a] != ko[b]);
                        assert(v[a] == kv[a]);
                        assert(v[b] == kv[b]);
                    } else if a >= kv.len() && b >= kv.len() {
                        let x = a - kv.len();
                        let y = b - kv.len();
                        assert(v[a] == sv[x]);
                        assert(v[b] == sv[y]);
                        assert(so[x] != so[y]);
                        lemma_under_split(ekey(before[so[x]]), f);
                        lemma_under_split(ekey(before[so[y]]), f);
                        if ekey(v[a]) == ekey(v[b]) {
                            assert(ekey(sv[x]).skip(tk.len() as int) == ekey(sv[y]).skip(
                                tk.len() as int,
                            ));
                            assert(ekey(before[so[x]]) == ekey(before[so[y]]));
                            assert(false);
                        }
                    } else if a < kv.len() {
                        let y = b - kv.len();
                        assert(under(ekey(sv[y]), tk));
                        assert(!under(ekey(before[ko[a]]), tk));
                        assert(ekey(v[a]) == ekey(before[ko[a]]));
                        assert(ekey(v[b]) == ekey(sv[y]));
                    } else {
                        let x = a - kv.len();
                        assert(under(ekey(sv[x]), tk));
                        assert(!under(ekey(before[ko[b]]), tk));
                        assert(ekey(v[b]) == ekey(before[ko[b]]));
                        assert(ekey(v[a]) == ekey(sv[x]));
                    }
                }
            }
            assert forall|a: int| 0 <= a < v.len() implies #[trigger] t.contains_key(ekey(v[a]))
                && t[ekey(v[a])] == node_view(v[a].1) by {
                if a < kv.len() {
                    lemma_tree_at(before, ko[a]);
                } else {
                    let x = a - kv.len();
                    let src = ekey(before[so[x]]);
                    lemma_tree_at(before, so[x]);
                    lemma_under_split(src, f);
                    let k = ekey(v[a]);
                    assert(f + k.skip(tk.len() as int) == src);
                    assert(!m1.contains_key(k));
                }
            }
            assert forall|kk: Seq<Seq<char>>| t.contains_key(kk) implies exists|a: int|
                0 <= a < v.len() && ekey(#[trigger] v[a]) == kk by {
                if m1.contains_key(kk) && !under(kk, f) {
                    let j = choose|j: int| 0 <= j < before.len() && ekey(#[trigger] before[j]) == kk;
                    let a = choose|a: int| 0 <= a < kv.len() && ko[a] == j;
                    assert(ekey(v[a]) == kk);
                } else {
                    let src = f + kk.skip(tk.len() as int);
                    let j = choose|j: int| 0 <= j < before.len() && ekey(#[trigger] before[j]) == src;
                    let x = choose|x: int| 0 <= x < sv.len() && so[x] == j;
                    lemma_rebase_keys(kk.skip(tk.len() as int), f);
                    lemma_under_split(kk, tk);
                    assert(ekey(v[kv.len() + x]) == kk);
                }
            }
            lemma_tree_eq(v, t);
        }
        self.entries = kept;
    }
}

impl Entries {
    /// Remove the entry at `k`, if any.
    fn remove_key(&mut self, k: &Vec<String>)
        requires
            old(self).wf(),
        ensures
            final(self).wf(),
            final(self).tree() == old(self).tree().remove(svs(k@)),
    {
        match self.find(k) {
            Some(i) => {
                let ghost before = self.entries@;
                let ghost t = old(self).tree().remove(svs(k@));
                self.entries.remove(i);
                proof {
                    let v = self.entries@;
                    assert(v == before.remove(i as int));
                    assert forall|a: int| 0 <= a < v.len() implies #[trigger] t.contains_key(
                        ekey(v[a]),
                    ) && t[ekey(v[a])] == node_view(v[a].1) by {
                        if a < i {
                            assert(v[a] == before[a]);
                            lemma_tree_at(before, a);
                        } else {
                            assert(v[a] == before[a + 1]);
                            lemma_tree_at(before, a + 1);
                        }
                    }
                    assert forall|kk: Seq<Seq<char>>| t.contains_key(kk) implies exists|a: int|
                        0 <= a < v.len() && ekey(#[trigger] v[a]) == kk by {
                        let j = choose|j: int| 0 <= j < before.len() && ekey(#[trigger] before[j]) == kk;
                        if j < i {
                            assert(ekey(v[j]) == kk);
                        } else {
                            assert(j != i);
                            assert(ekey(v[j - 1]) == kk);
                        }
                    }
                    lemma_tree_eq(v, t);
                }
            },
            None => {
                proof {
                    lemma_tree_absent(self.entries@, svs(k@));
                    assert(self.tree() =~= self.tree().remove(svs(k@)));
                }
            },
        }
    }

    /// The direct children of `base`.
    fn list(&self, base: &Vec<String>) -> (r: Vec<(String, bool)>)
        requires
            self.wf(),
        ensures
            listing(r@).to_set() == children(self.tree(), svs(base@)),
            entry_names(r@).no_duplicates(),
    {
        let mut out: Vec<(String, bool)> = Vec::new();
        let ghost mut origin: Seq<int> = Seq::empty();
        let mut i: usize = 0;
        while i < self.entries.len()
            invariant
                i <= self.entries@.len(),
                out@.len() == origin.len(),
                forall|a: int|
                    0 <= a < out@.len() ==> 0 <= #[trigger] origin[a] < i && ekey(
                        self.entries@[origin[a]],
                    ).len() == svs(base@).len() + 1 && under(
                        ekey(self.entries@[origin[a]]),
                        svs(base@),
                    ) && listing(out@)[a] == (ekey(self.entries@[origin[a]]).last(), node_view(
                        self.entries@[origin[a]].1,
                    ) == Node::Dir),
                forall|j: int|
                    0 <= j < i && ekey(#[trigger] self.entries@[j]).len() == svs(base@).len() + 1
                        && under(ekey(self.entries@[j]), svs(base@)) ==> exists|a: int|
                        0 <= a < out@.len() && origin[a] == j,
                forall|a: int, b: int| 0 <= a < b < out@.len() ==> origin[a] < origin[b],
                unique(self.entries@),
            decreases self.entries@.len() - i,
        {
            let e = &self.entries[i];
            if e.0.len() > base.len() && e.0.len() - 1 == base.len() && is_under(&e.0, base) {
                let name = e.0[base.len()].clone();
                let is_dir = match &e.1 {
                    MemNode::Dir => true,
                    MemNode::File(_) => false,
                };
                let ghost old_origin = origin;
                let ghost prev = out@;
                out.push((name, is_dir));
                proof {
                    origin = origin.push(i as int);
                    assert(out@ == prev.push((name, is_dir)));
                    assert(listing(out@) =~= listing(prev).push((name@, is_dir)));
                    assert(ekey(self.entries@[i as int]).last() == name@);
                    assert forall|j: int|
                        0 <= j < i + 1 && ekey(#[trigger] self.entries@[j]).len() == svs(base@).len()
                            + 1 && under(ekey(self.entries@[j]), svs(base@)) implies exists|a: int|
                        0 <= a < out@.len() && origin[a] == j by {
                        if j == i {
                            assert(origin[out@.len() - 1] == j);
                        } else {
                            let a = choose|a: int| 0 <= a < out@.len() - 1 && old_origin[a] == j;
                            assert(origin[a] == j);
                        }
                    }
                }
            }
            i = i + 1;
        }
        proof {
            let m = self.tree();
            let b = svs(base@);
            let ls = listing(out@);
            assert forall|c: (Seq<char>, bool)| ls.to_set().contains(c) <==> children(m, b).contains(c) by {
                if ls.to_set().contains(c) {
                    let a = choose|a: int| 0 <= a < ls.len() && ls[a] == c;
                    let j = origin[a];
                    lemma_tree_at(self.entries@, j);
                    let k = ekey(self.entries@[j]);
                    assert(m.contains_key(k));
                }
                if children(m, b).contains(c) {
                    let k = choose|k: Seq<Seq<char>>|
                        #![trigger m.contains_key(k)]
                        m.contains_key(k) && k.len() == b.len() + 1 && under(k, b)
                            && k.last() == c.0 && c.1 == (m[k] == Node::Dir);
                    let j = choose|j: int| 0 <= j < self.entries@.len() && ekey(#[trigger] self.entries@[j]) == k;
                    lemma_tree_at(self.entries@, j);
                    let a = choose|a: int| 0 <= a < out@.len() && origin[a] == j;
                    assert(ls[a] == c);
                    assert(ls.contains(c));
                }
            }
            assert(ls.to_set() =~= children(m, b));
            assert forall|x: int, y: int|
                0 <= x < out@.len() && 0 <= y < out@.len() && x != y implies entry_names(out@)[x]
                != entry_names(out@)[y] by {
                let kx = ekey(self.entries@[origin[x]]);
                let ky = ekey(self.entries@[origin[y]]);
                assert(entry_names(out@)[x] == ls[x].0);
                assert(entry_names(out@)[y] == ls[y].0);
                if kx.last() == ky.last() {
                    assert(kx =~= b.push(kx.last()));
                    assert(ky =~= b.push(ky.last()));
                    assert(origin[x] != origin[y]);
                }
            }
        }
        out
    }
}

/// A purely in-memory filesystem, used to replay rollback actions in tests.
#[derive(Debug)]
pub struct MemFs {
    store: Entries,
}

impl MemFs {
    #[verifier::type_invariant]
    spec fn inv(&self) -> bool {
        self.store.wf()
    }

    /// Construct an empty in-memory filesystem.
    pub fn new() -> (r: MemFs)
        ensures
            r.tree() == Map::<Seq<Seq<char>>, Node>::empty(),
    {
        MemFs { store: Entries::empty() }
    }

    /// Take the entries out, leaving an empty store behind.
    fn take(&mut self) -> (r: Entries)
        ensures
            r.wf(),
            r.tree() == old(self).tree(),
    {
        proof {
            use_type_invariant(&*self);
        }
        let mut e = Entries::empty();
        std::mem::swap(&mut e, &mut self.store);
        e
    }

    /// Every file held, as its path (components joined by `/`) and contents,
    /// in ascending path order: each listed pair is a file of the tree, and
    /// each file of the tree is listed once.
    pub fn snapshot(&self) -> (r: Vec<(String, Vec<u8>)>)
        ensures
            exists|ks: Seq<Seq<Seq<char>>>| #[trigger] listed_in_order(self.tree(), r@, ks),
            forall|k: Seq<Seq<char>>|
                #[trigger] self.tree().contains_key(k) && self.tree()[k] is File ==> lists_file(
                    r@,
                    join_with(k, seq!['/']),
                    self.tree()[k]->0,
                ),
    {
        proof {
            use_type_invariant(self);
        }
        let ghost es = self.store.entries@;
        let mut out: Vec<(String, Vec<u8>)> = Vec::new();
        let mut pos: Vec<usize> = Vec::new();
        let mut i: usize = 0;
        while i < self.store.entries.len()
            invariant
                i <= es.len(),
                es == self.store.entries@,
                unique(es),
                out@.len() == pos@.len(),
                forall|a: int|
                    0 <= a < pos@.len() ==> #[trigger] pos@[a] < i && node_view(es[pos@[a] as int].1)
                        is File && out@[a].0@ == join_with(ekey(es[pos@[a] as int]), seq!['/'])
                        && out@[a].1@ == node_view(es[pos@[a] as int].1)->0,
                forall|a: int, b: int|
                    0 <= a < b < pos@.len() ==> key_less(
                        ekey(es[#[trigger] pos@[a] as int]),
                        ekey(es[#[trigger] pos@[b] as int]),
                    ),
                forall|j: int|
                    0 <= j < i && node_view(#[trigger] es[j].1) is File ==> exists|a: int|
                        0 <= a < pos@.len() && #[trigger] pos@[a] == j,
            decreases es.len() - i,
        {
            let e = &self.store.entries[i];
            match &e.1 {
                MemNode::File(d) => {
                    let name = key_text(&e.0);
                    let data = vstd::slice::slice_to_vec(d.as_slice());
                    let ghost k = ekey(es[i as int]);
                    let mut j: usize = 0;
                    while j < pos.len() && key_lt(&self.store.entries[pos[j]].0, &e.0)
                        invariant
                            j <= pos@.len(),
                            i < es.len(),
                            es == self.store.entries@,
                            e == es[i as int],
                            k == ekey(es[i as int]),
                            forall|a: int| 0 <= a < pos@.len() ==> #[trigger] pos@[a] < i,
                            forall|a: int|
                                0 <= a < j ==> key_less(ekey(es[#[trigger] pos@[a] as int]), k),
                        decreases pos@.len() - j,
                    {
                        j = j + 1;
                    }
                    let ghost prev = out@;
                    let ghost pprev = pos@;
                    proof {
                        lemma_key_order(k, k, k);
                        assert forall|a: int| j <= a < pprev.len() implies key_less(
                            k,
                            ekey(es[#[trigger] pprev[a] as int]),
                        ) by {
                            let kj = ekey(es[pprev[j as int] as int]);
                            let ka = ekey(es[pprev[a] as int]);
                            assert(pprev[j as int] < i);
                            assert(kj != k);
                            lemma_key_order(kj, k, ka);
                            lemma_key_order(k, kj, ka);
                            if a > j {
                                assert(key_less(kj, ka));
                            }
                        }
                    }
                    out.insert(j, (name, data));
                    pos.insert(j, i);
                    proof {
                        assert(out@ == prev.insert(j as int, (name, data)));
                        assert(pos@ == pprev.insert(j as int, i));
                        assert forall|a: int| 0 <= a < pos@.len() implies #[trigger] pos@[a] < i + 1
                            && node_view(es[pos@[a] as int].1) is File && out@[a].0@ == join_with(
                            ekey(es[pos@[a] as int]),
                            seq!['/'],
                        ) && out@[a].1@ == node_view(es[pos@[a] as int].1)->0 by {
                            if a < j {
                                assert(pos@[a] == pprev[a] && out@[a] == prev[a]);
                            } else if a > j {
                                assert(pos@[a] == pprev[a - 1] && out@[a] == prev[a - 1]);
                            }
                        }
                        assert forall|a: int, b: int| 0 <= a < b < pos@.len() implies key_less(
                            ekey(es[#[trigger] pos@[a] as int]),
                            ekey(es[#[trigger] pos@[b] as int]),
                        ) by {
                            if b < j {
                                assert(pos@[a] == pprev[a] && pos@[b] == pprev[b]);
                            } else if b == j {
                                assert(pos@[a] == pprev[a]);
                            } else if a < j {
                                assert(pos@[a] == pprev[a] && pos@[b] == pprev[b - 1]);
                                lemma_key_order(
                                    ekey(es[pprev[a] as int]),
                                    k,
                                    ekey(es[pprev[b - 1] as int]),
                                );
                            } else if a == j {
                                assert(pos@[b] == pprev[b - 1]);
                            } else {
                                assert(pos@[a] == pprev[a - 1] && pos@[b] == pprev[b - 1]);
                            }
                        }
                        assert forall|q: int|
                            0 <= q < i + 1 && node_view(#[trigger] es[q].1) is File implies exists|a: int|
                            0 <= a < pos@.len() && #[trigger] pos@[a] == q by {
                            if q < i {
                                let a = choose|a: int| 0 <= a < pprev.len() && #[trigger] pprev[a] == q;
                                if a < j {
                                    assert(pos@[a] == q);
                                } else {
                                    assert(pos@[a + 1] == q);
                                }
                            } else {
                                assert(pos@[j as int] == q);
                            }
                        }
                    }
                },
                MemNode::Dir => {},
            }
            i = i + 1;
        }
        proof {
            let ks = pos@.map_values(|p: usize| ekey(es[p as int]));
            assert forall|a: int| 0 <= a < out@.len() implies self.tree().contains_key(
                #[trigger] ks[a],
            ) && self.tree()[ks[a]] == Node::File(out@[a].1@) && out@[a].0@ == join_with(
                ks[a],
                seq!['/'],
            ) by {
                lemma_tree_at(es, pos@[a] as int);
            }
            assert forall|a: int, b: int| 0 <= a < b < out@.len() implies key_less(
                ks[a],
                ks[b],
            ) by {
                assert(key_less(ekey(es[pos@[a] as int]), ekey(es[pos@[b] as int])));
            }
            assert(listed_in_order(self.tree(), out@, ks));
            assert forall|k: Seq<Seq<char>>|
                #[trigger] self.tree().contains_key(k) && self.tree()[k] is File implies lists_file(
                out@,
                join_with(k, seq!['/']),
                self.tree()[k]->0,
            ) by {
                let j = choose|j: int| 0 <= j < es.len() && ekey(#[trigger] es[j]) == k;
                lemma_tree_at(es, j);
                assert(node_view(es[j].1) is File);
                let a = choose|a: int| 0 <= a < pos@.len() && #[trigger] pos@[a] == j;
                assert(out@[a].0@ == join_with(k, seq!['/']));
            }
        }
        out
    }
}

/// Whether key `a` sorts strictly before `b` in the order of paths:
/// component by component, a proper prefix first.
pub open spec fn key_less(a: Seq<Seq<char>>, b: Seq<Seq<char>>) -> bool
    decreases a.len(),
{
    if b.len() == 0 {
        false
    } else if a.len() == 0 {
        true
    } else if a[0] != b[0] {
        text_less(a[0], b[0])
    } else {
        key_less(a.drop_first(), b.drop_first())
    }
}

/// `key_less` is a strict total order: irreflexive, transitive and total.
proof fn lemma_key_order(a: Seq<Seq<char>>, b: Seq<Seq<char>>, c: Seq<Seq<char>>)
    ensures
        !key_less(a, a),
        key_less(a, b) && key_less(b, c) ==> key_less(a, c),
        a != b ==> key_less(a, b) || key_less(b, a),
    decreases a.len(),
{
    if a.len() > 0 {
        if b.len() > 0 && c.len() > 0 {
            lemma_key_order(a.drop_first(), b.drop_first(), c.drop_first());
            lemma_text_order(a[0], b[0], c[0]);
        } else if b.len() > 0 {
            lemma_key_order(a.drop_first(), b.drop_first(), b.drop_first());
            lemma_text_order(a[0], b[0], b[0]);
        } else {
            lemma_key_order(a.drop_first(), a.drop_first(), a.drop_first());
            lemma_text_order(a[0], a[0], a[0]);
        }
        if a != b && b.len() > 0 && a[0] == b[0] && a.drop_first() == b.drop_first() {
            assert forall|q: int| 0 <= q < a.len() implies a[q] == b[q] by {
                if q > 0 {
                    assert(a[q] == a.drop_first()[q - 1]);
                    assert(b[q] == b.drop_first()[q - 1]);
                }
            }
            assert(a =~= b);
        }
    } else if b.len() == 0 {
        assert(a =~= b);
    }
}

/// Whether `a` sorts strictly before `b` in the order of paths.
fn key_lt(a: &Vec<String>, b: &Vec<String>) -> (r: bool)
    ensures
        r == key_less(svs(a@), svs(b@)),
{
    let mut i: usize = 0;
    assert(svs(a@).skip(0) =~= svs(a@));
    assert(svs(b@).skip(0) =~= svs(b@));
    while i < a.len() && i < b.len() && str_eq(a[i].as_str(), b[i].as_str())
        invariant
            i <= a@.len(),
            i <= b@.len(),
            key_less(svs(a@), svs(b@)) == key_less(svs(a@).skip(i as int), svs(b@).skip(i as int)),
        decreases a@.len() - i,
    {
        assert(svs(a@).skip(i as int).drop_first() =~= svs(a@).skip(i + 1));
        assert(svs(b@).skip(i as int).drop_first() =~= svs(b@).skip(i + 1));
        i = i + 1;
    }
    if i == b.len() {
        false
    } else if i == a.len() {
        true
    } else {
        assert(svs(a@).skip(i as int)[0] == a@[i as int]@);
        assert(svs(b@).skip(i as int)[0] == b@[i as int]@);
        text_lt(a[i].as_str(), b[i].as_str())
    }
}

/// Whether `r` lists files of `t` at the keys `ks`, in ascending key order,
/// so that no path is listed twice: each listed path is its key's
/// components joined by `/`.
pub open spec fn listed_in_order(t: Tree, r: Seq<(String, Vec<u8>)>, ks: Seq<Seq<Seq<char>>>) -> bool {
    &&& ks.len() == r.len()
    &&& forall|i: int|
        0 <= i < r.len() ==> t.contains_key(#[trigger] ks[i]) && t[ks[i]] == Node::File(r[i].1@)
            && r[i].0@ == join_with(ks[i], seq!['/'])
    &&& forall|i: int, j: int| 0 <= i < j < r.len() ==> key_less(ks[i], ks[j])
}


/// Whether the listing holds a pair with this path and these contents.
pub open spec fn lists_file(r: Seq<(String, Vec<u8>)>, name: Seq<char>, data: Seq<u8>) -> bool {
    exists|i: int| 0 <= i < r.len() && (#[trigger] r[i]).0@ == name && r[i].1@ == data
}

impl Fs for MemFs {
    closed spec fn tree(&self) -> Tree {
        self.store.tree()
    }

    /// The in-memory filesystem carries out every call.
    open spec fn dependable(&self) -> bool {
        true
    }

    fn read(&self, path: &str) -> (r: Result<Vec<u8>>)
        ensures
            r matches Ok(d) <==> self.tree().contains_key(path_key(path@))
                && self.tree()[path_key(path@)] is File,
            r matches Ok(d) ==> self.tree()[path_key(path@)] == Node::File(d@),
    {
        proof {
            use_type_invariant(self);
        }
        let k = key(path);
        match self.store.find(&k) {
            Some(i) => {
                proof {
                    lemma_tree_at(self.store.entries@, i as int);
                }
                match &self.store.entries[i].1 {
                    MemNode::File(d) => Ok(vstd::slice::slice_to_vec(d.as_slice())),
                    MemNode::Dir => Err(Error::Other(string_of(
                        concat_chars(
                            chars_of("is a directory: ").as_slice(),
                            chars_of(debug_quoted(path).as_str()).as_slice(),
                        ).as_slice(),
                    ))),
                }
            },
            None => {
                proof {
                    lemma_tree_absent(self.store.entries@, svs(k@));
                }
                Err(Error::Other(string_of(
                    concat_chars(
                        chars_of("no such file: ").as_slice(),
                        chars_of(debug_quoted(path).as_str()).as_slice(),
                    ).as_slice(),
                )))
            },
        }
    }

    fn write(&mut self, path: &str, data: &[u8]) -> (r: Result<()>)
        ensures
            r is Ok,
            final(self).tree() == add_dirs(old(self).tree(), path_normals(path@)).insert(
                path_key(path@),
                Node::File(data@),
            ),
    {
        let mut e = self.take();
        let parts = components(path);
        e.ensure_dirs(&parts);
        let k = key(path);
        let d = vstd::slice::slice_to_vec(data);
        e.put(k, MemNode::File(d));
        self.store = e;
        Ok(())
    }

    fn path_exists(&self, path: &str) -> (r: Result<bool>)
        ensures
            r == Ok::<bool, Error>(self.tree().contains_key(path_key(path@))),
    {
        proof {
            use_type_invariant(self);
        }
        let k = key(path);
        match self.store.find(&k) {
            Some(i) => {
                proof {
                    lemma_tree_at(self.store.entries@, i as int);
                }
                Ok(true)
            },
            None => {
                proof {
                    lemma_tree_absent(self.store.entries@, svs(k@));
                }
                Ok(false)
            },
        }
    }

    fn create_dir_all(&mut self, path: &str) -> (r: Result<()>)
        ensures
            r is Ok,
            final(self).tree() == add_dirs(old(self).tree(), path_normals(path@)),
    {
        let mut e = self.take();
        let parts = components(path);
        e.ensure_dirs(&parts);
        self.store = e;
        Ok(())
    }

    fn rename(&mut self, from: &str, to: &str) -> (r: Result<()>)
        ensures
            r is Ok,
            final(self).tree() == moved(old(self).tree(), path_key(from@), path_key(to@)),
    {
        let mut e = self.take();
        let fk = key(from);
        let tk = key(to);
        e.drop_below(&tk);
        proof {
            assert forall|k: Seq<Seq<char>>| #[trigger] e.tree().contains_key(k) implies !under(k, svs(tk@)) by {}
        }
        e.move_below(&fk, &tk);
        self.store = e;
        Ok(())
    }

    fn remove_dir_all(&mut self, path: &str) -> (r: Result<()>)
        ensures
            r is Ok,
            final(self).tree() == drop_under(old(self).tree(), path_key(path@)),
    {
        let mut e = self.take();
        let k = key(path);
        e.drop_below(&k);
        self.store = e;
        Ok(())
    }

    fn remove_file(&mut self, path: &str) -> (r: Result<()>)
        ensures
            r is Ok,
            final(self).tree() == old(self).tree().remove(path_key(path@)),
    {
        let mut e = self.take();
        let k = key(path);
        e.remove_key(&k);
        self.store = e;
        Ok(())
    }

    fn read_dir(&self, path: &str) -> (r: Result<Vec<(String, bool)>>)
        ensures
            r matches Ok(v) && listing(v@).to_set() == children(self.tree(), path_key(path@))
                && entry_names(v@).no_duplicates(),
    {
        proof {
            use_type_invariant(self);
        }
        let base = key(path);
        Ok(self.store.list(&base))
    }
}
} // verus!
