//! The `.wanted` directory layout.

use vstd::prelude::*;

use crate::engine::fs::{children, entry_names, listing, Fs};
use crate::error::Result;
use crate::fs_path::DirName;
use crate::order::{sort_strings, sorted, views};
use crate::path::{join, joined, path_key};

verus! {

/// Layout accessor for the persistent root directory.
pub struct Store {
    root: String,
}

/// The `.wanted` record directory under a root.
pub open spec fn store_path(root: Seq<char>) -> Seq<char> {
    joined(root, ".wanted"@)
}

/// Where installed tools are placed.
pub open spec fn apps_path(root: Seq<char>) -> Seq<char> {
    joined(store_path(root), "apps"@)
}

/// Where install receipts live.
pub open spec fn installed_path(root: Seq<char>) -> Seq<char> {
    joined(store_path(root), "installed"@)
}

/// The names of the directory entries of a listing.
pub open spec fn dir_names(entries: Seq<(String, bool)>) -> Seq<Seq<char>>
    decreases entries.len(),
{
    if entries.len() == 0 {
        Seq::empty()
    } else if entries.last().1 {
        dir_names(entries.drop_last()).push(entries.last().0@)
    } else {
        dir_names(entries.drop_last())
    }
}

/// A directory listing names a directory exactly when it holds that name
/// marked as a directory.
/// A listing without repeated names names each directory once.
proof fn lemma_dir_names_unique(entries: Seq<(String, bool)>)
    requires
        entry_names(entries).no_duplicates(),
    ensures
        dir_names(entries).no_duplicates(),
    decreases entries.len(),
{
    if entries.len() > 0 {
        let d = entries.drop_last();
        assert(entry_names(d) =~= entry_names(entries).drop_last());
        lemma_dir_names_unique(d);
        if entries.last().1 {
            let n = entries.last().0@;
            lemma_dir_names_contains(d, n);
            if dir_names(d).contains(n) {
                let i = choose|i: int| 0 <= i < listing(d).len() && listing(d)[i] == (n, true);
                assert(entry_names(entries)[i] == n);
                assert(entry_names(entries)[entries.len() - 1] == n);
            }
            assert(dir_names(entries) == dir_names(d).push(n));
        }
    }
}

proof fn lemma_dir_names_contains(entries: Seq<(String, bool)>, n: Seq<char>)
    ensures
        dir_names(entries).contains(n) <==> listing(entries).contains((n, true)),
    decreases entries.len(),
{
    if entries.len() > 0 {
        let d = entries.drop_last();
        lemma_dir_names_contains(d, n);
        assert(listing(d) =~= listing(entries).drop_last());
        assert(listing(entries).last() == (entries.last().0@, entries.last().1));
        if listing(entries).contains((n, true)) {
            let i = choose|i: int| 0 <= i < listing(entries).len() && listing(entries)[i] == (n, true);
            if i < d.len() {
                assert(listing(d)[i] == (n, true));
            }
        }
        if listing(d).contains((n, true)) {
            let i = choose|i: int| 0 <= i < listing(d).len() && listing(d)[i] == (n, true);
            assert(listing(entries)[i] == (n, true));
        }
        if dir_names(d).contains(n) {
            let i = choose|i: int| 0 <= i < dir_names(d).len() && dir_names(d)[i] == n;
            if entries.last().1 {
                assert(dir_names(entries)[i] == n);
            }
        }
        if entries.last().1 {
            assert(dir_names(entries).last() == entries.last().0@);
            if dir_names(entries).contains(n) {
                let i = choose|i: int| 0 <= i < dir_names(entries).len() && dir_names(entries)[i] == n;
                if i < dir_names(d).len() {
                    assert(dir_names(d)[i] == n);
                }
            }
        }
    }
}

impl Store {
    /// The project root directory.
    pub closed spec fn root_spec(&self) -> Seq<char> {
        self.root@
    }

    /// Construct around a root directory (under which `.wanted` lives).
    pub fn new(root: String) -> (r: Store)
        ensures
            r.root_spec() == root@,
    {
        Store { root }
    }

    /// The project root directory.
    pub fn root(&self) -> (r: &str)
        ensures
            r@ == self.root_spec(),
    {
        self.root.as_str()
    }

    /// The `.wanted` directory.
    pub fn store_dir(&self) -> (r: String)
        ensures
            r@ == store_path(self.root_spec()),
    {
        join(self.root.as_str(), ".wanted")
    }

    /// Where installed tools are placed.
    pub fn apps_dir(&self) -> (r: String)
        ensures
            r@ == apps_path(self.root_spec()),
    {
        let s = self.store_dir();
        join(s.as_str(), "apps")
    }

    /// Where install receipts live.
    pub fn installed_dir(&self) -> (r: String)
        ensures
            r@ == installed_path(self.root_spec()),
    {
        let s = self.store_dir();
        join(s.as_str(), "installed")
    }

    /// The receipt path for one tool.
    pub fn receipt_path(&self, name: &DirName) -> (r: String)
        ensures
            r@ == joined(joined(installed_path(self.root_spec()), name@), "receipt.toml"@),
    {
        let d = self.installed_dir();
        let t = join(d.as_str(), name.as_str());
        join(t.as_str(), "receipt.toml")
    }

    /// List installed tool names (direct subdirectories of `apps`), sorted;
    /// empty when `apps` does not exist.
    pub fn list_installed<F: Fs>(&self, fs: &F) -> (r: Result<Vec<String>>)
        ensures
            r matches Ok(names) ==> sorted(views(names@)) && (if fs.tree().contains_key(
                path_key(apps_path(self.root_spec())),
            ) {
                forall|n: Seq<char>|
                    #[trigger] views(names@).contains(n) <==> children(
                        fs.tree(),
                        path_key(apps_path(self.root_spec())),
                    ).contains((n, true))
            } else {
                names@.len() == 0
            }),
            r matches Ok(names) ==> views(names@).no_duplicates(),
            fs.dependable() ==> r is Ok,
    {
        let apps = self.apps_dir();
        if !fs.path_exists(apps.as_str())? {
            return Ok(Vec::new());
        }
        let entries = fs.read_dir(apps.as_str())?;
        let names = dirs_only(&entries);
        let sorted_names = sort_strings(names);
        proof {
            lemma_dir_names_unique(entries@);
            views(names@).lemma_multiset_has_no_duplicates();
            views(sorted_names@).lemma_multiset_has_no_duplicates_conv();
            let k = path_key(apps@);
            assert forall|n: Seq<char>| #[trigger] views(sorted_names@).contains(n) <==> children(
                fs.tree(),
                k,
            ).contains((n, true)) by {
                lemma_dir_names_contains(entries@, n);
                vstd::seq_lib::to_multiset_contains(views(sorted_names@), n);
                vstd::seq_lib::to_multiset_contains(views(names@), n);
                if views(sorted_names@).contains(n) {
                    assert(views(sorted_names@).to_multiset().count(n) > 0);
                    assert(views(names@).contains(n));
                    let i = choose|i: int| 0 <= i < listing(entries@).len() && listing(entries@)[i] == (n, true);
                    assert(listing(entries@).to_set().contains((n, true)));
                }
                if children(fs.tree(), k).contains((n, true)) {
                    assert(listing(entries@).to_set().contains((n, true)));
                    assert(listing(entries@).contains((n, true)));
                    assert(views(names@).contains(n));
                    assert(views(names@).to_multiset().count(n) > 0);
                    assert(views(sorted_names@).contains(n));
                }
            }
        }
        Ok(sorted_names)
    }
}

/// The names of the directory entries, in listing order.
pub fn dirs_only(entries: &Vec<(String, bool)>) -> (r: Vec<String>)
    ensures
        views(r@) == dir_names(entries@),
{
    let mut out: Vec<String> = Vec::new();
    let mut i: usize = 0;
    while i < entries.len()
        invariant
            i <= entries@.len(),
            views(out@) == dir_names(entries@.take(i as int)),
        decreases entries@.len() - i,
    {
        proof {
            let t = entries@.take(i + 1);
            assert(t.drop_last() =~= entries@.take(i as int));
            assert(t.last() == entries@[i as int]);
        }
        if entries[i].1 {
            let ghost prev = views(out@);
            out.push(entries[i].0.clone());
            assert(views(out@) =~= prev.push(entries@[i as int].0@));
        }
        i = i + 1;
    }
    assert(entries@.take(entries@.len() as int) =~= entries@);
    out
}

} // verus!
