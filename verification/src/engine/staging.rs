//! Staging area lifecycle.
//!
//! Two-phase commit: downloads and extraction go entirely into the staging
//! area (discardable as a whole); only commit moves them into place. Any
//! failure before commit is rolled back by `abort` deleting the directory.

use vstd::prelude::*;

use crate::engine::fs::{cleared, Fs};
use crate::error::Result;
use crate::path::{join, joined, path_key};
use crate::text::{chars_of, hex_chars, hex_text, push_all, string_of};

verus! {

/// Nanoseconds since the Unix epoch, read from the system clock.
///
/// `SystemTime::now` and `duration_since`; a clock before the epoch reads as
/// zero. The value depends on the time of the call, so nothing is stated of it.
#[verifier::external_body]
pub(crate) fn clock_nanos() -> u128 {
    match std::time::SystemTime::now().duration_since(std::time::UNIX_EPOCH) {
        Ok(d) => d.as_nanos(),
        Err(_) => 0,
    }
}

/// The name of a staging directory for `name` with nonce `n`.
pub open spec fn staging_leaf(name: Seq<char>, n: nat) -> Seq<char> {
    name + seq!['-'] + hex_text(n)
}

/// The staging directory for `name` under `root` with nonce `n`.
pub open spec fn staging_path(root: Seq<char>, name: Seq<char>, n: nat) -> Seq<char> {
    joined(joined(root, ".staging"@), staging_leaf(name, n))
}

/// A unique staging-directory suffix built from the clock: the lowercase hex
/// form of the nanoseconds since the epoch.
pub fn unique_nonce() -> (r: String)
    ensures
        exists|n: u128| r@ == hex_text(n as nat),
{
    let n = clock_nanos();
    let h = hex_chars(n);
    string_of(h.as_slice())
}

/// Handle to a staging area.
pub struct Staging {
    dir: String,
}

impl Staging {
    /// The staging directory.
    pub closed spec fn dir_spec(&self) -> Seq<char> {
        self.dir@
    }

    /// Construct (without creating) a staging directory under
    /// `root/.staging`, isolated by a unique suffix read from the clock.
    pub fn new(root: &str, name: &str) -> (r: Staging)
        ensures
            exists|n: u128| r.dir_spec() == staging_path(root@, name@, n as nat),
    {
        Staging::at(root, name, clock_nanos())
    }

    /// The staging directory under `root/.staging` for `name` with nonce
    /// `nonce`: `name`, a dash and the nonce in lowercase hex.
    pub fn at(root: &str, name: &str, nonce: u128) -> (r: Staging)
        ensures
            r.dir_spec() == staging_path(root@, name@, nonce as nat),
    {
        let tail = hex_chars(nonce);
        let mut leaf = chars_of(name);
        leaf.push('-');
        push_all(&mut leaf, tail.as_slice());
        let leaf_text = string_of(leaf.as_slice());
        let base = join(root, ".staging");
        let dir = join(base.as_str(), leaf_text.as_str());
        assert(dir@ == staging_path(root@, name@, nonce as nat));
        Staging { dir }
    }

    /// Construct from an already-resolved path (the execution layer
    /// reproduces the plan's staging path).
    pub fn from_dir(dir: String) -> (r: Staging)
        ensures
            r.dir_spec() == dir@,
    {
        Staging { dir }
    }

    /// The staging directory's path.
    pub fn dir(&self) -> (r: &str)
        ensures
            r@ == self.dir_spec(),
    {
        self.dir.as_str()
    }

    /// Clear any leftover staging area so work starts from a clean slate.
    pub fn ensure_clean<F: Fs>(&self, fs: &mut F) -> (r: Result<()>)
        ensures
            r is Ok ==> final(fs).tree() == cleared(old(fs).tree(), path_key(self.dir_spec())),
            old(fs).dependable() ==> r is Ok && final(fs).dependable(),
    {
        if fs.path_exists(self.dir.as_str())? {
            fs.remove_dir_all(self.dir.as_str())?;
        }
        Ok(())
    }

    /// Discard the staging area (the fallback rollback for a pre-commit
    /// failure).
    pub fn abort<F: Fs>(&self, fs: &mut F) -> (r: Result<()>)
        ensures
            r is Ok ==> final(fs).tree() == cleared(old(fs).tree(), path_key(self.dir_spec())),
            old(fs).dependable() ==> r is Ok && final(fs).dependable(),
    {
        if fs.path_exists(self.dir.as_str())? {
            fs.remove_dir_all(self.dir.as_str())?;
        }
        Ok(())
    }
}

} // verus!
