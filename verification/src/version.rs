//! A validated, typed install version.

use vstd::prelude::*;

use semver::Version as RawSemver;

use crate::error::{Error, Result};
use crate::text::{chars_of, debug_quoted, debug_str, dec_chars, dec_text, push_all, str_eq, string_of};

verus! {

#[verifier::external_type_specification]
#[verifier::external_body]
pub struct ExRawSemver(RawSemver);

/// What `semver::Version::parse` makes of a text: the major, minor and patch
/// numbers with the pre-release and build-metadata texts, or the text of the
/// parse error.
pub uninterp spec fn semver_parse(text: Seq<char>) -> core::result::Result<
    (u64, u64, u64, Seq<char>, Seq<char>),
    Seq<char>,
>;

/// Whether the first version precedes the second in `semver::Version`'s order.
pub uninterp spec fn semver_less(
    a: (u64, u64, u64, Seq<char>, Seq<char>),
    b: (u64, u64, u64, Seq<char>, Seq<char>),
) -> bool;

/// A semantic version as `semver` parsed it.
#[derive(Debug, PartialEq, Eq, Hash, PartialOrd, Ord)]
pub struct SemVer {
    raw: RawSemver,
    major: u64,
    minor: u64,
    patch: u64,
    pre: String,
    build: String,
}

impl View for SemVer {
    type V = (u64, u64, u64, Seq<char>, Seq<char>);

    closed spec fn view(&self) -> (u64, u64, u64, Seq<char>, Seq<char>) {
        (self.major, self.minor, self.patch, self.pre@, self.build@)
    }
}

/// `semver::Version::parse`, with the parsed parts carried as plain values.
#[verifier::external_body]
fn semver_from_text(text: &str) -> (r: core::result::Result<SemVer, String>)
    ensures
        match r {
            Ok(v) => semver_parse(text@) == Ok::<_, Seq<char>>(v@),
            Err(e) => semver_parse(text@) == Err::<(u64, u64, u64, Seq<char>, Seq<char>), _>(
                e@,
            ),
        },
{
    match RawSemver::parse(text) {
        Ok(v) => Ok(SemVer {
            major: v.major,
            minor: v.minor,
            patch: v.patch,
            pre: v.pre.as_str().to_string(),
            build: v.build.as_str().to_string(),
            raw: v,
        }),
        Err(e) => Err(e.to_string()),
    }
}

/// `semver::Version`'s `<`. The order is the one `derive(Ord)` gives over
/// major, minor, patch, pre-release and build metadata, each a total order
/// that compares equal only for equal values; so no version precedes an equal
/// one, and a version preceding `b` precedes whatever `b` precedes.
#[verifier::external_body]
fn semver_precedes(a: &SemVer, b: &SemVer) -> (r: bool)
    ensures
        r == semver_less(a@, b@),
        a@ == b@ ==> !r,
        r ==> forall|c: (u64, u64, u64, Seq<char>, Seq<char>)|
            #[trigger] semver_less(b@, c) ==> semver_less(a@, c),
{
    a.raw < b.raw
}

/// The text `semver` displays for a version: `major.minor.patch`, then
/// `-pre` and `+build` when present.
pub open spec fn semver_text(v: (u64, u64, u64, Seq<char>, Seq<char>)) -> Seq<char> {
    let core = dec_text(v.0 as nat) + seq!['.'] + dec_text(v.1 as nat) + seq!['.'] + dec_text(
        v.2 as nat,
    );
    let with_pre = if v.3.len() > 0 {
        core + seq!['-'] + v.3
    } else {
        core
    };
    if v.4.len() > 0 {
        with_pre + seq!['+'] + v.4
    } else {
        with_pre
    }
}

impl SemVer {
    /// Parse a semantic version.
    pub fn parse(text: &str) -> (r: core::result::Result<SemVer, String>)
        ensures
            match r {
                Ok(v) => semver_parse(text@) == Ok::<_, Seq<char>>(v@),
                Err(e) => semver_parse(text@) == Err::<(u64, u64, u64, Seq<char>, Seq<char>), _>(
                    e@,
                ),
            },
    {
        semver_from_text(text)
    }

    /// The pre-release text (empty for a stable release).
    pub fn pre(&self) -> (r: &str)
        ensures
            r@ == self@.3,
    {
        self.pre.as_str()
    }

    /// The build-metadata text (empty when absent).
    pub fn build(&self) -> (r: &str)
        ensures
            r@ == self@.4,
    {
        self.build.as_str()
    }

    /// Whether this version precedes `other`: never when they are equal, and
    /// when it does, it precedes whatever `other` precedes.
    pub fn precedes(&self, other: &SemVer) -> (r: bool)
        ensures
            r == semver_less(self@, other@),
            self@ == other@ ==> !r,
            r ==> forall|c: (u64, u64, u64, Seq<char>, Seq<char>)|
                #[trigger] semver_less(other@, c) ==> semver_less(self@, c),
    {
        semver_precedes(self, other)
    }

    /// The displayed text of this version.
    pub fn text(&self) -> (r: String)
        ensures
            r@ == semver_text(self@),
    {
        let mut out = dec_chars(self.major);
        out.push('.');
        let mi = dec_chars(self.minor);
        push_all(&mut out, mi.as_slice());
        out.push('.');
        let pa = dec_chars(self.patch);
        push_all(&mut out, pa.as_slice());
        let pre = chars_of(self.pre.as_str());
        if pre.len() > 0 {
            out.push('-');
            push_all(&mut out, pre.as_slice());
        }
        let build = chars_of(self.build.as_str());
        if build.len() > 0 {
            out.push('+');
            push_all(&mut out, build.as_slice());
        }
        string_of(out.as_slice())
    }
}

/// The version to install: an unpinned `latest` or a validated semantic version.
#[derive(Clone, Debug, PartialEq, Eq, Hash, PartialOrd, Ord)]
pub enum Version {
    /// No version requested; `{version}` resolves to the literal `latest`.
    Latest,
    /// A pinned, validated semantic version.
    Pinned(SemVer),
}

/// What `Version::parse` makes of a text.
pub open spec fn version_parse(text: Seq<char>) -> core::result::Result<
    Option<(u64, u64, u64, Seq<char>, Seq<char>)>,
    Seq<char>,
> {
    if text == "latest"@ {
        Ok(None)
    } else {
        match semver_parse(text) {
            Ok(v) => Ok(Some(v)),
            Err(e) => Err(e),
        }
    }
}

/// The abstract value of a version: `None` for `latest`.
pub open spec fn version_view(v: Version) -> Option<(u64, u64, u64, Seq<char>, Seq<char>)> {
    match v {
        Version::Latest => None,
        Version::Pinned(s) => Some(s@),
    }
}

/// The printable text of a version.
pub open spec fn version_text(v: Option<(u64, u64, u64, Seq<char>, Seq<char>)>) -> Seq<char> {
    match v {
        None => "latest"@,
        Some(s) => semver_text(s),
    }
}

/// The build-metadata text of a version (empty for `latest`).
pub open spec fn build_text(v: Option<(u64, u64, u64, Seq<char>, Seq<char>)>) -> Seq<char> {
    match v {
        None => Seq::empty(),
        Some(s) => s.4,
    }
}

impl Version {
    /// Parse a version string, treating `latest` as the unpinned case.
    pub fn parse(source: &str) -> (r: core::result::Result<Version, String>)
        ensures
            match r {
                Ok(v) => version_parse(source@) == Ok::<_, Seq<char>>(version_view(v)),
                Err(e) => version_parse(source@) == Err::<
                    Option<(u64, u64, u64, Seq<char>, Seq<char>)>,
                    _,
                >(e@),
            },
    {
        if str_eq(source, "latest") {
            return Ok(Version::Latest);
        }
        match SemVer::parse(source) {
            Ok(v) => Ok(Version::Pinned(v)),
            Err(e) => Err(e),
        }
    }

    /// The printable text: `latest`, or the semantic version.
    pub fn text(&self) -> (r: String)
        ensures
            r@ == version_text(version_view(*self)),
    {
        match self {
            Version::Latest => "latest".to_owned(),
            Version::Pinned(v) => v.text(),
        }
    }

    /// The build-metadata suffix (`20260825` in `3.13.0+20260825`); empty for
    /// `latest` or a version without one.
    pub fn build_date(&self) -> (r: String)
        ensures
            r@ == build_text(version_view(*self)),
    {
        match self {
            Version::Latest => String::new(),
            Version::Pinned(v) => v.build().to_owned(),
        }
    }

    /// Whether this is the unpinned `latest`.
    pub fn is_latest(&self) -> (r: bool)
        ensures
            r == (*self is Latest),
    {
        match self {
            Version::Latest => true,
            Version::Pinned(_) => false,
        }
    }

    /// A copy of this version.
    pub fn duplicate(&self) -> (r: Version)
        ensures
            version_view(r) == version_view(*self),
    {
        match self {
            Version::Latest => Version::Latest,
            Version::Pinned(v) => Version::Pinned(v.duplicate()),
        }
    }
}

impl SemVer {
    /// A copy of this version.
    pub fn duplicate(&self) -> (r: SemVer)
        ensures
            r@ == self@,
    {
        SemVer {
            raw: clone_raw(&self.raw),
            major: self.major,
            minor: self.minor,
            patch: self.patch,
            pre: self.pre.clone(),
            build: self.build.clone(),
        }
    }
}

impl Clone for SemVer {
    fn clone(&self) -> (r: Self)
        ensures
            r@ == self@,
    {
        self.duplicate()
    }
}

/// `semver::Version::clone`.
#[verifier::external_body]
fn clone_raw(v: &RawSemver) -> RawSemver {
    v.clone()
}

/// Whether `s` is maximal among `all` in `semver`'s order.
pub open spec fn is_maximal(
    s: (u64, u64, u64, Seq<char>, Seq<char>),
    all: Seq<(u64, u64, u64, Seq<char>, Seq<char>)>,
) -> bool {
    forall|j: int| 0 <= j < all.len() ==> !semver_less(s, #[trigger] all[j])
}

/// The parsed forms of the texts, when every one parses.
pub open spec fn all_parse(texts: Seq<Seq<char>>) -> Option<
    Seq<(u64, u64, u64, Seq<char>, Seq<char>)>,
>
    decreases texts.len(),
{
    if texts.len() == 0 {
        Some(Seq::empty())
    } else {
        match (all_parse(texts.drop_last()), semver_parse(texts.last())) {
            (Some(p), Ok(v)) => Some(p.push(v)),
            _ => None,
        }
    }
}

/// The views of a sequence of strings.
pub open spec fn string_views(v: Seq<String>) -> Seq<Seq<char>> {
    v.map_values(|s: String| s@)
}

/// What resolving the newest of `versions` returns: an error for an empty
/// list or a non-SemVer entry; otherwise a declared version that no declared
/// version exceeds.
pub open spec fn picks_latest(versions: Seq<String>, r: Result<Version>) -> bool {
    &&& r is Ok <==> versions.len() > 0 && all_parse(string_views(versions)) is Some
    &&& r matches Ok(v) ==> v matches Version::Pinned(s) && all_parse(string_views(versions))
        matches Some(all) && all.contains(s@) && is_maximal(s@, all)
}

/// Resolve declared versions to the newest by semantic ordering.
///
/// Every version string must be a valid SemVer so the comparison is
/// unambiguous; an empty list or a non-SemVer entry is an error. Otherwise
/// the result is a declared version that no declared version exceeds.
pub fn pick_latest(versions: &[String]) -> (r: Result<Version>)
    ensures
        picks_latest(versions@, r),
        versions@.len() == 0 ==> (r matches Err(Error::Other(m)) && m@
            == "source declares no versions to resolve latest"@),
        first_unparsed(string_views(versions@)) matches Some(i) ==> (semver_parse(
            string_views(versions@)[i],
        ) matches Err(d) && r matches Err(Error::Other(m)) && m@
            == "cannot resolve latest: source version "@ + debug_str(string_views(versions@)[i])
            + " is not a comparable SemVer ("@ + d + ")"@),
{
    if versions.len() == 0 {
        return Err(Error::Other("source declares no versions to resolve latest".to_owned()));
    }
    let mut parsed: Vec<SemVer> = Vec::new();
    let mut i: usize = 0;
    while i < versions.len()
        invariant
            i <= versions@.len(),
            first_unparsed(string_views(versions@).take(i as int)) is None,
            all_parse(string_views(versions@).take(i as int)) == Some(
                parsed@.map_values(|s: SemVer| s@),
            ),
            parsed@.len() == i,
        decreases versions@.len() - i,
    {
        proof {
            let t = string_views(versions@).take(i + 1);
            assert(t.drop_last() =~= string_views(versions@).take(i as int));
            assert(t.last() == versions@[i as int]@);
        }
        match SemVer::parse(versions[i].as_str()) {
            Ok(v) => {
                let ghost prev = parsed@;
                parsed.push(v);
                assert(parsed@.map_values(|s: SemVer| s@) =~= prev.map_values(|s: SemVer| s@).push(
                    v@,
                ));
            },
            Err(e) => {
                proof {
                    lemma_all_parse_prefix(string_views(versions@), i + 1);
                    let t = string_views(versions@).take(i + 1);
                    assert(t.drop_last() =~= string_views(versions@).take(i as int));
                    assert(first_unparsed(t) == Some(i as int));
                    lemma_first_unparsed_prefix(string_views(versions@), i + 1);
                    reveal_strlit(")");
                }
                let mut m = chars_of("cannot resolve latest: source version ");
                let quoted = debug_quoted(versions[i].as_str());
                let raw = chars_of(quoted.as_str());
                push_all(&mut m, raw.as_slice());
                let mid = chars_of(" is not a comparable SemVer (");
                push_all(&mut m, mid.as_slice());
                let detail = chars_of(e.as_str());
                push_all(&mut m, detail.as_slice());
                m.push(')');
                return Err(Error::Other(string_of(m.as_slice())));
            },
        }
        i = i + 1;
    }
    assert(string_views(versions@).take(versions@.len() as int) =~= string_views(versions@));
    let ghost all = parsed@.map_values(|s: SemVer| s@);
    let mut best: usize = 0;
    let mut j: usize = 0;
    while j < parsed.len()
        invariant
            best <= j <= parsed@.len(),
            best < parsed@.len(),
            all == parsed@.map_values(|s: SemVer| s@),
            forall|k: int| 0 <= k < j ==> !semver_less(all[best as int], #[trigger] all[k]),
        decreases parsed@.len() - j, (if best == j {
            0int
        } else {
            1int
        }),
    {
        if parsed[best].precedes(&parsed[j]) {
            proof {
                assert forall|k: int| 0 <= k < j implies !semver_less(
                    all[j as int],
                    #[trigger] all[k],
                ) by {
                    if semver_less(all[j as int], all[k]) {
                        assert(semver_less(all[best as int], all[k]));
                    }
                }
            }
            best = j;
        } else {
            j = j + 1;
        }
    }
    let v = parsed[best].duplicate();
    assert(all.contains(v@)) by {
        assert(all[best as int] == v@);
    }
    Ok(Version::Pinned(v))
}

/// The index of the first text that is not a semantic version.
pub open spec fn first_unparsed(texts: Seq<Seq<char>>) -> Option<int>
    decreases texts.len(),
{
    if texts.len() == 0 {
        None
    } else {
        match first_unparsed(texts.drop_last()) {
            Some(i) => Some(i),
            None => if semver_parse(texts.last()) is Err {
                Some(texts.len() - 1)
            } else {
                None
            },
        }
    }
}

/// The first unparsable text of a prefix is the first of the whole list.
proof fn lemma_first_unparsed_prefix(texts: Seq<Seq<char>>, n: int)
    requires
        0 <= n <= texts.len(),
        first_unparsed(texts.take(n)) is Some,
    ensures
        first_unparsed(texts) == first_unparsed(texts.take(n)),
    decreases texts.len() - n,
{
    if n < texts.len() {
        let t = texts.take(n + 1);
        assert(t.drop_last() =~= texts.take(n));
        lemma_first_unparsed_prefix(texts, n + 1);
    } else {
        assert(texts.take(n) =~= texts);
    }
}

proof fn lemma_all_parse_prefix(texts: Seq<Seq<char>>, n: int)
    requires
        0 <= n <= texts.len(),
        all_parse(texts.take(n)) is None,
    ensures
        all_parse(texts) is None,
    decreases texts.len() - n,
{
    if n < texts.len() {
        let t = texts.take(n + 1);
        assert(t.drop_last() =~= texts.take(n));
        lemma_all_parse_prefix(texts, n + 1);
    } else {
        assert(texts.take(n) =~= texts);
    }
}

} // verus!
