//! Template placeholder expansion shared by every install method.
//!
//! Plugins spell install destinations as templates (`{base}`, `{version}`,
//! `{date}`, `{user}`) so a manifest never hardcodes a machine-specific path.
//! Command invocations, installer arguments, environment values and asset
//! URLs all route through this module.

use vstd::prelude::*;

use crate::path::{absolute, is_absolute, join, joined};
use crate::text::{chars_of, replace_all, replace_chars, str_eq, string_of};
use crate::version::{build_text, version_text, version_view, Version};

verus! {

/// `str::replace` on strings, for a non-empty pattern.
pub fn replace_str(s: &str, pat: &str, rep: &str) -> (r: String)
    requires
        pat@.len() > 0,
    ensures
        r@ == replace_all(s@, pat@, rep@),
{
    let a = chars_of(s);
    let b = chars_of(pat);
    let c = chars_of(rep);
    let out = replace_chars(a.as_slice(), b.as_slice(), c.as_slice());
    string_of(out.as_slice())
}

/// The text `{version}` stands for.
pub open spec fn version_of(v: Version) -> Seq<char> {
    version_text(version_view(v))
}

/// The text `{date}` stands for: the build metadata of the version.
pub open spec fn date_of(v: Version) -> Seq<char> {
    build_text(version_view(v))
}

/// A template with `{base}`, `{version}`, `{date}` and `{user}` substituted,
/// in that order.
pub open spec fn expanded(t: Seq<char>, base: Seq<char>, v: Version, home: Seq<char>) -> Seq<char> {
    replace_all(
        replace_all(
            replace_all(replace_all(t, "{base}"@, base), "{version}"@, version_of(v)),
            "{date}"@,
            date_of(v),
        ),
        "{user}"@,
        home,
    )
}

/// Substitute `{base}`, `{version}`, `{date}`, and `{user}` placeholders.
///
/// `base` becomes the install directory for this run, `{version}` the
/// version (or `latest`), `{date}` that version's build metadata (empty when
/// absent, e.g. the `20260825` in `3.13.0+20260825`), and `{user}` the home
/// directory.
pub fn expand_template(template: &str, base: &str, version: &Version, home: &str) -> (r: String)
    ensures
        r@ == expanded(template@, base@, *version, home@),
{
    proof {
        reveal_strlit("{base}");
        reveal_strlit("{version}");
        reveal_strlit("{date}");
        reveal_strlit("{user}");
    }
    let vt = version.text();
    let date = version.build_date();
    let s1 = replace_str(template, "{base}", base);
    let s2 = replace_str(s1.as_str(), "{version}", vt.as_str());
    let s3 = replace_str(s2.as_str(), "{date}", date.as_str());
    replace_str(s3.as_str(), "{user}", home)
}

/// A URL template with `{version}` and `{date}` substituted.
pub open spec fn expanded_url(t: Seq<char>, v: Version) -> Seq<char> {
    replace_all(replace_all(t, "{version}"@, version_of(v)), "{date}"@, date_of(v))
}

/// Substitute the version-only placeholders (`{version}`, `{date}`) of an
/// asset URL template.
pub fn expand_url(template: &str, version: &Version) -> (r: String)
    ensures
        r@ == expanded_url(template@, *version),
{
    proof {
        reveal_strlit("{version}");
        reveal_strlit("{date}");
    }
    let vt = version.text();
    let date = version.build_date();
    let s1 = replace_str(template, "{version}", vt.as_str());
    replace_str(s1.as_str(), "{date}", date.as_str())
}

/// An environment value: `$`-prefixed and absolute values pass through, an
/// empty or `.` value is the base itself, anything else lies under the base.
pub open spec fn resolved_value(t: Seq<char>, base: Seq<char>, v: Version, home: Seq<char>) -> Seq<
    char,
> {
    let s = expanded(t, base, v, home);
    if (t.len() > 0 && t[0] == '$') || absolute(s) {
        s
    } else if s == "."@ || s.len() == 0 {
        base
    } else {
        joined(base, s)
    }
}

/// Resolve an environment-value template, joining relative paths under
/// `base` so the tool writes absolute paths.
pub fn resolve_template(template: &str, base: &str, version: &Version, home: &str) -> (r: String)
    ensures
        r@ == resolved_value(template@, base@, *version, home@),
{
    let s = expand_template(template, base, version, home);
    let t = chars_of(template);
    if (t.len() > 0 && t[0] == '$') || is_absolute(s.as_str()) {
        s
    } else if str_eq(s.as_str(), ".") || chars_of(s.as_str()).len() == 0 {
        base.to_owned()
    } else {
        join(base, s.as_str())
    }
}

} // verus!
