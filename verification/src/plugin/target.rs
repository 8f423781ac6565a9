//! Platform target identification.

use vstd::prelude::*;

use crate::text::{chars_of, push_all, str_eq, string_of};

verus! {

/// A platform: architecture, operating system and ABI.
#[derive(Clone, Copy, Debug, PartialEq, Eq)]
pub struct Target {
    arch: &'static str,
    os: &'static str,
    env: &'static str,
}

/// The Rust-style triplet of a platform.
pub open spec fn triplet_text(arch: Seq<char>, os: Seq<char>, env: Seq<char>) -> Seq<char> {
    if os == "windows"@ {
        arch + "-pc-windows-"@ + env
    } else if os == "linux"@ {
        arch + "-unknown-linux-"@ + env
    } else if os == "macos"@ {
        arch + "-apple-darwin"@
    } else {
        arch + "-"@ + os
    }
}

fn cat2(a: &str, b: &str) -> (r: Vec<char>)
    ensures
        r@ == a@ + b@,
{
    let mut out = chars_of(a);
    let tail = chars_of(b);
    push_all(&mut out, tail.as_slice());
    out
}

impl Target {
    /// The triplet this target denotes.
    pub closed spec fn triplet_spec(&self) -> Seq<char> {
        triplet_text(self.arch@, self.os@, self.env@)
    }

    /// Explicitly construct a target, for cross-module tests and tooling.
    pub fn parts(arch: &'static str, os: &'static str, env: &'static str) -> (r: Target)
        ensures
            r.triplet_spec() == triplet_text(arch@, os@, env@),
    {
        Target { arch, os, env }
    }

    /// Rust-style triplet, e.g. `x86_64-pc-windows-msvc`.
    pub fn triplet(&self) -> (r: String)
        ensures
            r@ == self.triplet_spec(),
    {
        let cs = if str_eq(self.os, "windows") {
            let mut out = cat2(self.arch, "-pc-windows-");
            let e = chars_of(self.env);
            push_all(&mut out, e.as_slice());
            out
        } else if str_eq(self.os, "linux") {
            let mut out = cat2(self.arch, "-unknown-linux-");
            let e = chars_of(self.env);
            push_all(&mut out, e.as_slice());
            out
        } else if str_eq(self.os, "macos") {
            cat2(self.arch, "-apple-darwin")
        } else {
            let mut out = cat2(self.arch, "-");
            let o = chars_of(self.os);
            push_all(&mut out, o.as_slice());
            out
        };
        string_of(cs.as_slice())
    }
}

} // verus!
