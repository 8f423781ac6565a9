//! Execution engine.
//!
//! Layered as plan (no I/O) -> staging -> commit, with every step carrying its
//! own compensation. All I/O goes through the [`Fs`], [`Downloader`],
//! [`ProcessRunner`] and environment seams so rollback can be replayed against
//! in-memory backends.

pub mod download;
pub mod execute;
mod expand;
pub mod fs;
pub mod ops;
pub mod plan;
pub mod staging;
pub mod unpack;
pub mod url;

use vstd::prelude::*;

use crate::engine::fs::{add_dirs, Node};
use crate::engine::ops::{pair_views, string_views};
use crate::error::Result;
use crate::path::{path_key, path_normals};

pub use download::{RealDownloader, DEFAULT_PARALLEL_WORKERS};
pub use fs::{Fs, MemFs};
pub use url::Url;

verus! {

/// Downloader abstraction: pulls a URL into bytes and reports progress while
/// streaming. The real implementation hits the network; tests inject fakes.
pub trait Downloader {
    /// Whether `bytes` is a body this downloader may hand back for `url`.
    ///
    /// Code generic over the downloader never sees this default body, so it
    /// learns of a fetched body only that it came for the URL asked; what a
    /// server sends is not known in advance.
    closed spec fn serves(&self, url: Seq<char>, bytes: Seq<u8>) -> bool {
        true
    }

    /// Fetch all bytes of `url`, reporting `(done, total)` per chunk read
    /// (`total` is `None` when unknown).
    fn fetch<P: Fn(u64, Option<u64>)>(&self, url: &Url, on_progress: &P) -> (r: Result<Vec<u8>>)
        ensures
            r matches Ok(b) ==> self.serves(url@, b@),
    ;

    /// Fetch `url` into the file at `to`, reporting progress. The default
    /// buffers the whole body in memory then writes it through `fs`, so test
    /// doubles only need to implement [`Self::fetch`]; when it succeeds the
    /// file at `to` holds the fetched bytes, its directories created.
    fn fetch_to<F: Fs, P: Fn(u64, Option<u64>)>(
        &self,
        fs: &mut F,
        url: &Url,
        to: &str,
        on_progress: &P,
    ) -> (r: Result<()>)
        default_ensures
            r is Ok ==> exists|bytes: Seq<u8>|
                #[trigger] self.serves(url@, bytes) && final(fs).tree() == add_dirs(
                    old(fs).tree(),
                    path_normals(to@),
                ).insert(path_key(to@), Node::File(bytes)),
    {
        let bytes = self.fetch(url, on_progress)?;
        fs.write(to, bytes.as_slice())
    }
}

/// Process-runner abstraction: runs a child process to completion. The real
/// implementation spawns an OS process; tests inject fakes.
pub trait ProcessRunner {
    /// Whether this runner may report success for `program` run with `args`
    /// and the variables `env` layered over the inherited environment.
    ///
    /// Code generic over the runner never sees this default body, so it
    /// learns of a success only that it came for the program, arguments and
    /// variables handed over; how a process ends is not known in advance.
    closed spec fn accepts(
        &self,
        program: Seq<char>,
        args: Seq<Seq<char>>,
        env: Seq<(Seq<char>, Seq<char>)>,
    ) -> bool {
        true
    }

    /// Run `program` with `args`, waiting for it to finish. A plain run adds
    /// no variables, so its success stands whatever variables a caller
    /// meant to layer over it.
    fn run(&self, program: &str, args: &[String]) -> (r: Result<()>)
        ensures
            r is Ok ==> forall|env: Seq<(Seq<char>, Seq<char>)>|
                #[trigger] self.accepts(program@, string_views(args@), env),
    ;

    /// Run `program` with `args` and extra environment variables layered over
    /// the inherited environment. Defaults to [`Self::run`] (ignoring `env`),
    /// so test doubles only need to override `run`.
    fn run_with_env(&self, program: &str, args: &[String], env: &[(String, String)]) -> (r: Result<()>)
        ensures
            r is Ok ==> self.accepts(
                program@,
                string_views(args@),
                pair_views(env@),
            ),
    {
        self.run(program, args)
    }
}

/// Execution context: root directory plus swappable backends.
pub struct Ctx<'a, F, D, P, E, R> {
    /// The project root directory (under which `.wanted` lives).
    pub root: String,
    /// Filesystem backend.
    pub fs: &'a mut F,
    /// Download backend.
    pub downloader: &'a D,
    /// Process backend (runs installers and install commands).
    pub runner: &'a P,
    /// Environment variable persistence backend.
    pub env: &'a mut E,
    /// Progress reporting backend.
    pub reporter: &'a R,
}

} // verus!
