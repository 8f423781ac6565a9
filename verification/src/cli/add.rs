//! Plugin-source resolution for the `add` command.
//!
//! `wanted add` accepts either a local plugin `.toml` (an existing file) or a
//! tool name, in which case the manifest is fetched as `<name>.toml` from a
//! plugin registry. The default registry keeps every manifest at the
//! repository root, so the file for a tool named `golang` is `golang.toml`.

use vstd::prelude::*;

use crate::text::{chars_of, push_all, string_of};

verus! {

/// Default plugin registry: raw content of the registry repository's `main`
/// branch. `wanted add <name>` appends `<name>.toml` to this base.
pub const DEFAULT_REGISTRY: &'static str = "https://raw.githubusercontent.com/YWZYXSoCool/wanted-registry/main";

/// Where an `add` target's plugin content comes from.
#[derive(Clone, Debug, PartialEq, Eq)]
pub enum PluginSource {
    /// An existing local file: the argument is a path on disk.
    Local(String),
    /// A registry entry: fetch `<name>.toml` from `url`.
    Registry {
        /// Tool name, the part the `.toml` suffix is appended to.
        name: String,
        /// Fully-formed raw URL to download.
        url: String,
    },
}

/// A text without its trailing `/` characters.
pub open spec fn without_trailing_slashes(s: Seq<char>) -> Seq<char>
    decreases s.len(),
{
    if s.len() > 0 && s.last() == '/' {
        without_trailing_slashes(s.drop_last())
    } else {
        s
    }
}

/// The registry URL of a tool's manifest.
pub open spec fn registry_url(base: Seq<char>, name: Seq<char>) -> Seq<char> {
    without_trailing_slashes(base) + "/"@ + name + ".toml"@
}

/// Resolve an `add` target: an existing local file wins (`is_file` says
/// whether `target` names one); anything else names a registry manifest
/// fetched as `<name>.toml` from `registry` (defaulting to
/// [`DEFAULT_REGISTRY`]).
pub fn resolve_add_source(target: &str, registry: Option<&str>, is_file: bool) -> (r: PluginSource)
    ensures
        is_file ==> (r matches PluginSource::Local(p) && p@ == target@),
        !is_file ==> (r matches PluginSource::Registry { name, url } && name@ == target@ && url@
            == registry_url(
            match registry {
                Some(b) => b@,
                None => DEFAULT_REGISTRY@,
            },
            target@,
        )),
{
    if is_file {
        return PluginSource::Local(target.to_owned());
    }
    let base = match registry {
        Some(b) => b,
        None => DEFAULT_REGISTRY,
    };
    let cs = chars_of(base);
    let mut n: usize = cs.len();
    assert(cs@.take(cs@.len() as int) =~= cs@);
    while n > 0 && cs[n - 1] == '/'
        invariant
            n <= cs@.len(),
            cs@ == base@,
            without_trailing_slashes(base@) == without_trailing_slashes(cs@.take(n as int)),
        decreases n,
    {
        proof {
            assert(cs@.take(n as int).drop_last() =~= cs@.take(n - 1));
        }
        n = n - 1;
    }
    let mut url = crate::text::take_chars(cs.as_slice(), n);
    proof {
        assert(cs@.take(n as int) =~= url@);
        if n > 0 {
            assert(url@.last() != '/');
        }
    }
    let slash = chars_of("/");
    push_all(&mut url, slash.as_slice());
    let name = chars_of(target);
    push_all(&mut url, name.as_slice());
    let ext = chars_of(".toml");
    push_all(&mut url, ext.as_slice());
    PluginSource::Registry { name: target.to_owned(), url: string_of(url.as_slice()) }
}

} // verus!
