//! Tool specification parsing: `name@version` for the install command.

use vstd::prelude::*;

use crate::fs_path::{name_problem, name_problem_on, DirName, Platform};
use crate::text::{chars_of, debug_quoted, debug_str, push_all, skip_chars, string_of, take_chars, trim, trim_chars};
use crate::version::{version_parse, version_text, version_view, Version};

verus! {

/// A tool spec from the command line, e.g. `go@1.22.5`; a bare `name` with
/// no version means `latest`.
#[derive(Clone, Debug, PartialEq, Eq, Hash)]
pub struct ToolSpec {
    name: DirName,
    version: Version,
}

/// An invalid tool spec.
#[derive(Clone, Debug, PartialEq, Eq)]
pub enum ToolSpecError {
    /// The spec is empty or whitespace.
    Empty,
    /// The spec has nothing before `@`.
    MissingName { raw: String },
    /// The tool name is not usable as a directory segment.
    InvalidName { raw: String },
    /// The version after `@` is not a valid SemVer.
    InvalidVersion { raw: String, detail: String },
}

/// The message of a spec error.
pub open spec fn spec_error_text(e: ToolSpecError) -> Seq<char> {
    match e {
        ToolSpecError::Empty => "tool spec must not be empty"@,
        ToolSpecError::MissingName { raw } => "missing tool name before '@' in "@ + debug_str(raw@),
        ToolSpecError::InvalidName { raw } => "tool name is not usable as a directory segment: "@
            + debug_str(raw@),
        ToolSpecError::InvalidVersion { raw, detail } => "tool spec "@ + debug_str(raw@)
            + " has an invalid version: "@ + detail@,
    }
}

fn cat3(a: &str, b: &str, c: &str) -> (r: String)
    ensures
        r@ == a@ + b@ + c@,
{
    let mut out = chars_of(a);
    let y = chars_of(b);
    push_all(&mut out, y.as_slice());
    let z = chars_of(c);
    push_all(&mut out, z.as_slice());
    string_of(out.as_slice())
}

impl ToolSpecError {
    /// The human-readable message of this error.
    pub fn message(&self) -> (r: String)
        ensures
            r@ == spec_error_text(*self),
    {
        proof {
            reveal_strlit("");
        }
        match self {
            ToolSpecError::Empty => "tool spec must not be empty".to_owned(),
            ToolSpecError::MissingName { raw } => cat3(
                "missing tool name before '@' in ",
                debug_quoted(raw.as_str()).as_str(),
                "",
            ),
            ToolSpecError::InvalidName { raw } => cat3(
                "tool name is not usable as a directory segment: ",
                debug_quoted(raw.as_str()).as_str(),
                "",
            ),
            ToolSpecError::InvalidVersion { raw, detail } => {
                let mut out = chars_of(cat3("tool spec ", debug_quoted(raw.as_str()).as_str(), " has an invalid version: ").as_str());
                let d = chars_of(detail.as_str());
                push_all(&mut out, d.as_slice());
                string_of(out.as_slice())
            },
        }
    }
}

/// The position of the first `@`, if any.
pub open spec fn first_at(s: Seq<char>) -> Option<int> {
    if exists|i: int| 0 <= i < s.len() && s[i] == '@' {
        Some(choose|i: int| 0 <= i < s.len() && s[i] == '@' && forall|j: int| 0 <= j < i ==> s[j] != '@')
    } else {
        None
    }
}

/// What a tool spec parses to under the POSIX naming rules.
pub open spec fn spec_parse(raw: Seq<char>, r: Result<ToolSpec, ToolSpecError>) -> bool {
    spec_parse_on(Platform::Posix, raw, r)
}

/// What a tool spec parses to when the name must be a directory segment on
/// `p`: the name and the version, or the error.
pub open spec fn spec_parse_on(p: Platform, raw: Seq<char>, r: Result<ToolSpec, ToolSpecError>) -> bool {
    let spec = trim(raw);
    if spec.len() == 0 {
        r == Err::<ToolSpec, ToolSpecError>(ToolSpecError::Empty)
    } else {
        match first_at(spec) {
            None => match name_problem_on(p, spec) {
                Some(_) => r matches Err(ToolSpecError::InvalidName { raw }) && raw@ == spec,
                None => r matches Ok(t) && t.name_spec() == spec && t.version_spec() is Latest,
            },
            Some(i) => {
                let name = spec.take(i);
                let version = spec.skip(i + 1);
                if name.len() == 0 {
                    r matches Err(ToolSpecError::MissingName { raw }) && raw@ == spec
                } else {
                    match version_parse(version) {
                        Err(d) => r matches Err(ToolSpecError::InvalidVersion { raw, detail })
                            && raw@ == spec && detail@ == d,
                        Ok(v) => match name_problem_on(p, name) {
                            Some(_) => r matches Err(ToolSpecError::InvalidName { raw }) && raw@ == name,
                            None => r matches Ok(t) && t.name_spec() == name && version_view(t.version_spec()) == v,
                        },
                    }
                }
            },
        }
    }
}

fn find_at(s: &Vec<char>) -> (r: Option<usize>)
    ensures
        match r {
            Some(i) => first_at(s@) == Some(i as int) && i < s@.len(),
            None => first_at(s@) is None,
        },
{
    let mut i: usize = 0;
    while i < s.len()
        invariant
            i <= s@.len(),
            forall|j: int| 0 <= j < i ==> s@[j] != '@',
        decreases s@.len() - i,
    {
        if s[i] == '@' {
            proof {
                let w = choose|k: int|
                    0 <= k < s@.len() && s@[k] == '@' && forall|j: int| 0 <= j < k ==> s@[j] != '@';
                assert(s@[i as int] == '@');
                if w < i {
                    assert(s@[w] != '@');
                } else if w > i {
                    assert(s@[i as int] != '@');
                }
            }
            return Some(i);
        }
        i = i + 1;
    }
    None
}

impl ToolSpec {
    /// The tool name.
    pub closed spec fn name_spec(&self) -> Seq<char> {
        self.name@
    }

    /// The requested version.
    pub closed spec fn version_spec(&self) -> Version {
        self.version
    }

    /// The tool name, the part before `@`.
    pub fn name(&self) -> (r: &DirName)
        ensures
            r@ == self.name_spec(),
    {
        &self.name
    }

    /// The requested version, or `latest` when not pinned.
    pub fn version(&self) -> (r: &Version)
        ensures
            version_view(*r) == version_view(self.version_spec()),
    {
        &self.version
    }

    /// Parse `name@version` (surrounding whitespace ignored); a bare name
    /// means `latest`. The name must be a POSIX directory segment.
    pub fn parse(raw: &str) -> (r: Result<ToolSpec, ToolSpecError>)
        ensures
            spec_parse(raw@, r),
    {
        ToolSpec::parse_on(raw, Platform::Posix)
    }

    /// Parse `name@version` as [`ToolSpec::parse`] does, the name checked
    /// against the directory rules of `platform`.
    pub fn parse_on(raw: &str, platform: Platform) -> (r: Result<ToolSpec, ToolSpecError>)
        ensures
            spec_parse_on(platform, raw@, r),
    {
        let all = chars_of(raw);
        let spec_chars = trim_chars(all.as_slice());
        let spec = string_of(spec_chars.as_slice());
        if spec_chars.len() == 0 {
            return Err(ToolSpecError::Empty);
        }
        match find_at(&spec_chars) {
            None => match DirName::on(spec.clone(), platform) {
                Ok(name) => Ok(ToolSpec { name, version: Version::Latest }),
                Err(_) => Err(ToolSpecError::InvalidName { raw: spec }),
            },
            Some(i) => {
                let name_chars = take_chars(spec_chars.as_slice(), i);
                let version_chars = skip_chars(spec_chars.as_slice(), i + 1);
                if name_chars.len() == 0 {
                    return Err(ToolSpecError::MissingName { raw: spec });
                }
                let version_text = string_of(version_chars.as_slice());
                let version = match Version::parse(version_text.as_str()) {
                    Ok(v) => v,
                    Err(detail) => {
                        return Err(ToolSpecError::InvalidVersion { raw: spec, detail });
                    },
                };
                let name_text = string_of(name_chars.as_slice());
                match DirName::on(name_text.clone(), platform) {
                    Ok(name) => Ok(ToolSpec { name, version }),
                    Err(_) => Err(ToolSpecError::InvalidName { raw: name_text }),
                }
            },
        }
    }

    /// The spec as text: `name@version`.
    pub fn text(&self) -> (r: String)
        ensures
            r@ == self.name_spec() + "@"@ + version_text(version_view(self.version_spec())),
    {
        let v = self.version.text();
        let mut out = chars_of(self.name.as_str());
        out.push('@');
        let tail = chars_of(v.as_str());
        push_all(&mut out, tail.as_slice());
        proof {
            reveal_strlit("@");
        }
        string_of(out.as_slice())
    }
}

/// Parse the tool name as a platform-safe directory segment.
pub fn parse_name(raw: &str) -> (r: Result<DirName, ToolSpecError>)
    ensures
        match r {
            Ok(d) => d@ == raw@ && name_problem(raw@) is None,
            Err(e) => name_problem(raw@) is Some && (e matches ToolSpecError::InvalidName { raw: x }
                && x@ == raw@),
        },
{
    match DirName::new(raw.to_owned()) {
        Ok(d) => Ok(d),
        Err(_) => Err(ToolSpecError::InvalidName { raw: raw.to_owned() }),
    }
}

impl core::str::FromStr for ToolSpec {
    type Err = ToolSpecError;

    fn from_str(raw: &str) -> (r: Result<ToolSpec, ToolSpecError>)
        ensures
            spec_parse(raw@, r),
    {
        ToolSpec::parse(raw)
    }
}

} // verus!
