//! Self-upgrade: replace the running `wanted` binary from a release.
//!
//! Discovery resolves the latest release, picks this platform's asset,
//! enforces its `.sha256` companion, and swaps the binary in. The swap uses a
//! rename dance so a running executable is never overwritten in place; the
//! previous binary is kept as a `.old` sibling, giving each upgrade a
//! rollback path.

use vstd::prelude::*;

use crate::engine::fs::{
    add_dirs, kept_outside, lemma_add_dirs_keeps, lemma_moved_keeps, lemma_moved_lands,
    lemma_same_len_not_under, moved, under, Fs, Node, Tree,
};
use crate::path::{lemma_key_extend, names_file, path_key, path_normals};
use crate::engine::url::Url;
use crate::engine::Downloader;
use crate::error::{message_text, Error, Result};
use crate::json::{json_parse, json_view, member, parse_json, Json, JsonValue};
use crate::report::{Progress, Reporter};
use crate::text::{
    split_on, ascii_lower, chars_of, contains_chars, ends_with, is_hex_digit, is_ws, hex_digit, is_whitespace,
    lower_chars, push_all, skip_chars, str_eq, string_of, has_infix, has_suffix, trim_start,
};
use crate::version::{semver_less, semver_parse, semver_text, SemVer};

verus! {

/// The API endpoint of the project's latest release.
pub const RELEASES_URL: &'static str = "https://api.github.com/repos/YWZYXSoCool/wanted/releases/latest";

/// A single release asset: this platform's binary and its download URL.
#[derive(Clone, Debug, PartialEq, Eq)]
pub struct Asset {
    /// The binary's asset name on the release.
    pub name: String,
    /// Download URL for the binary.
    pub url: String,
}

/// One asset entry of a release description.
#[derive(Clone, Debug, PartialEq, Eq)]
pub struct RawAsset {
    /// The asset's file name.
    pub name: String,
    /// Where the asset is downloaded from.
    pub browser_download_url: String,
}

/// A discovered latest release, resolved to the running platform.
#[derive(Clone, Debug)]
pub struct Release {
    /// The latest release version.
    pub version: SemVer,
    /// This platform's binary asset.
    pub asset: Asset,
}

/// How an upgrade attempt ended.
#[derive(Clone, Debug)]
pub enum UpgradeOutcome {
    /// No version newer than the running one.
    UpToDate,
    /// The running binary was replaced with `version`.
    Upgraded(SemVer),
}

/// A tag without one leading `v`.
pub open spec fn tag_version(tag: Seq<char>) -> Seq<char> {
    if tag.len() > 0 && tag[0] == 'v' {
        tag.drop_first()
    } else {
        tag
    }
}

/// The `(name, url)` of a release asset.
pub open spec fn raw_view(a: RawAsset) -> (Seq<char>, Seq<char>) {
    (a.name@, a.browser_download_url@)
}

/// The `(name, url)` of each release asset.
pub open spec fn raw_views(v: Seq<RawAsset>) -> Seq<(Seq<char>, Seq<char>)> {
    v.map_values(|a: RawAsset| raw_view(a))
}

/// Whether an asset is this platform's binary: not a checksum file, and
/// named with `-<os>-`.
pub open spec fn asset_matches(a: (Seq<char>, Seq<char>), os: Seq<char>) -> bool {
    !has_suffix(a.0, ".sha256"@) && has_infix(a.0, "-"@ + os + "-"@)
}

/// The first matching asset, if any.
pub open spec fn first_match(assets: Seq<(Seq<char>, Seq<char>)>, os: Seq<char>) -> Option<int>
    decreases assets.len(),
{
    if assets.len() == 0 {
        None
    } else {
        match first_match(assets.drop_last(), os) {
            Some(i) => Some(i),
            None => if asset_matches(assets.last(), os) {
                Some(assets.len() - 1)
            } else {
                None
            },
        }
    }
}

proof fn lemma_first_match(assets: Seq<(Seq<char>, Seq<char>)>, os: Seq<char>)
    ensures
        first_match(assets, os) matches Some(i) ==> 0 <= i < assets.len() && asset_matches(assets[i], os)
            && forall|j: int| 0 <= j < i ==> !asset_matches(#[trigger] assets[j], os),
        first_match(assets, os) is None ==> forall|j: int|
            0 <= j < assets.len() ==> !asset_matches(#[trigger] assets[j], os),
    decreases assets.len(),
{
    if assets.len() > 0 {
        lemma_first_match(assets.drop_last(), os);
        assert forall|j: int| 0 <= j < assets.len() - 1 implies assets[j] == assets.drop_last()[j] by {}
    }
}

/// What a release built from a tag and its assets is: the tag (without a
/// leading `v`) must be a semantic version, and the first asset named for
/// `os` is the binary.
pub open spec fn release_outcome(
    tag: Seq<char>,
    assets: Seq<(Seq<char>, Seq<char>)>,
    os: Seq<char>,
    r: Result<Release>,
) -> bool {
    match semver_parse(tag_version(tag)) {
        Err(d) => r matches Err(Error::Other(m)) && m@ == "unparsable release tag '"@ + tag + "': "@
            + d,
        Ok(v) => match first_match(assets, os) {
            Some(i) => r matches Ok(rel) && rel.version@ == v && rel.asset.name@ == assets[i].0
                && rel.asset.url@ == assets[i].1,
            None => r matches Err(Error::UnsupportedPlatform { target }) && target@ == os,
        },
    }
}

/// A string member of a release description, or why it is not one.
pub open spec fn str_field(j: Json, key: Seq<char>) -> core::result::Result<Seq<char>, Seq<char>> {
    match member(j, key) {
        Some(Json::Str(s)) => Ok(s),
        Some(_) => Err("invalid type for field `"@ + key + "`"@),
        None => Err("missing field `"@ + key + "`"@),
    }
}

/// The `(name, url)` of one asset entry, or why it is malformed.
pub open spec fn asset_entry(j: Json) -> core::result::Result<(Seq<char>, Seq<char>), Seq<char>> {
    match str_field(j, "name"@) {
        Err(e) => Err(e),
        Ok(n) => match str_field(j, "browser_download_url"@) {
            Err(e) => Err(e),
            Ok(u) => Ok((n, u)),
        },
    }
}

/// The asset entries in order, or why the first malformed one is.
pub open spec fn asset_entries(items: Seq<Json>) -> core::result::Result<
    Seq<(Seq<char>, Seq<char>)>,
    Seq<char>,
>
    decreases items.len(),
{
    if items.len() == 0 {
        Ok(Seq::empty())
    } else {
        match asset_entries(items.drop_last()) {
            Err(e) => Err(e),
            Ok(prev) => match asset_entry(items.last()) {
                Err(e) => Err(e),
                Ok(a) => Ok(prev.push(a)),
            },
        }
    }
}

/// The tag and assets of a release description, or why it is malformed.
pub open spec fn release_fields(j: Json) -> core::result::Result<
    (Seq<char>, Seq<(Seq<char>, Seq<char>)>),
    Seq<char>,
> {
    match str_field(j, "tag_name"@) {
        Err(e) => Err(e),
        Ok(tag) => match member(j, "assets"@) {
            Some(Json::Array(items)) => match asset_entries(items) {
                Err(e) => Err(e),
                Ok(a) => Ok((tag, a)),
            },
            Some(_) => Err("invalid type for field `assets`"@),
            None => Err("missing field `assets`"@),
        },
    }
}

/// What a release description makes: a release for `os`, or an error.
pub open spec fn described_release(j: Json, os: Seq<char>, r: Result<Release>) -> bool {
    match release_fields(j) {
        Err(d) => r matches Err(Error::Other(m)) && m@ == "bad release payload: "@ + d,
        Ok((tag, assets)) => release_outcome(tag, assets, os, r),
    }
}

impl Release {
    /// Parse a release tag into a semantic version, tolerating a leading `v`.
    pub fn parse_tag(tag: &str) -> (r: Result<SemVer>)
        ensures
            match semver_parse(tag_version(tag@)) {
                Ok(v) => r matches Ok(s) && s@ == v,
                Err(d) => r matches Err(Error::Other(m)) && m@ == "unparsable release tag '"@ + tag@
                    + "': "@ + d,
            },
    {
        let cs = chars_of(tag);
        let stripped = if cs.len() > 0 && cs[0] == 'v' {
            string_of(skip_chars(cs.as_slice(), 1).as_slice())
        } else {
            tag.to_owned()
        };
        assert(cs@.skip(1) =~= cs@.drop_first());
        match SemVer::parse(stripped.as_str()) {
            Ok(v) => Ok(v),
            Err(d) => {
                let mut m = chars_of("unparsable release tag '");
                push_all(&mut m, cs.as_slice());
                let mid = chars_of("': ");
                push_all(&mut m, mid.as_slice());
                let dc = chars_of(d.as_str());
                push_all(&mut m, dc.as_slice());
                Err(Error::Other(string_of(m.as_slice())))
            },
        }
    }

    /// Pick the asset for `os` from a release, skipping checksum files.
    pub fn select_asset(assets: &[RawAsset], os: &str) -> (r: Option<Asset>)
        ensures
            match first_match(raw_views(assets@), os@) {
                Some(i) => r matches Some(a) && a.name@ == assets@[i].name@ && a.url@
                    == assets@[i].browser_download_url@,
                None => r is None,
            },
    {
        let ghost views = raw_views(assets@);
        proof {
            lemma_first_match(views, os@);
        }
        let mut marker = chars_of("-");
        let o = chars_of(os);
        push_all(&mut marker, o.as_slice());
        marker.push('-');
        let ext = chars_of(".sha256");
        proof {
            reveal_strlit("-");
        }
        let mut i: usize = 0;
        while i < assets.len()
            invariant
                i <= assets@.len(),
                views == raw_views(assets@),
                marker@ == "-"@ + os@ + "-"@,
                ext@ == ".sha256"@,
                forall|j: int| 0 <= j < i ==> !asset_matches(#[trigger] views[j], os@),
            decreases assets@.len() - i,
        {
            let name = chars_of(assets[i].name.as_str());
            assert(views[i as int] == raw_view(assets@[i as int]));
            if !ends_with(name.as_slice(), ext.as_slice()) && contains_chars(
                name.as_slice(),
                marker.as_slice(),
            ) {
                proof {
                    lemma_first_match(views, os@);
                    if let Some(f) = first_match(views, os@) {
                        if f < i {
                            assert(!asset_matches(views[f], os@));
                        } else if f > i {
                            assert(!asset_matches(views[i as int], os@));
                        }
                    }
                }
                return Some(
                    Asset {
                        name: assets[i].name.clone(),
                        url: assets[i].browser_download_url.clone(),
                    },
                );
            }
            i = i + 1;
        }
        proof {
            lemma_first_match(views, os@);
        }
        None
    }

    /// Build a release from its tag and assets, picking the asset for `os`.
    pub fn from_raw(tag_name: &str, assets: &[RawAsset], os: &str) -> (r: Result<Release>)
        ensures
            release_outcome(tag_name@, raw_views(assets@), os@, r),
    {
        let version = match Self::parse_tag(tag_name) {
            Ok(v) => v,
            Err(e) => {
                return Err(e);
            },
        };
        proof {
            assert forall|k: int| 0 <= k < assets@.len() implies #[trigger] raw_views(assets@)[k]
                == raw_view(assets@[k]) by {}
        }
        proof {
            lemma_first_match(raw_views(assets@), os@);
        }
        match Self::select_asset(assets, os) {
            Some(asset) => {
                proof {
                    let i = first_match(raw_views(assets@), os@)->Some_0;
                    assert(raw_views(assets@)[i] == raw_view(assets@[i]));
                }
                Ok(Release { version, asset })
            },
            None => Err(Error::UnsupportedPlatform { target: os.to_owned() }),
        }
    }

    /// Read a release description (`tag_name` and `assets`, each asset with
    /// `name` and `browser_download_url`) and pick the asset for `os`.
    pub fn from_json(doc: &JsonValue, os: &str) -> (r: Result<Release>)
        ensures
            described_release(json_view(*doc), os@, r),
    {
        let tag = match text_field(doc, "tag_name") {
            Ok(t) => t,
            Err(e) => {
                return Err(e);
            },
        };
        let list = match doc.get("assets") {
            Some(JsonValue::Array(items)) => items,
            Some(_) => {
                return Err(bad_payload("invalid type for field `assets`"));
            },
            None => {
                return Err(bad_payload("missing field `assets`"));
            },
        };
        let ghost jitems = match member(json_view(*doc), "assets"@) {
            Some(Json::Array(a)) => a,
            _ => Seq::empty(),
        };
        proof {
            assert(jitems == json_view(JsonValue::Array(*list))->Array_0);
            assert(jitems.len() == list@.len());
            assert forall|k: int| 0 <= k < list@.len() implies jitems[k] == json_view(
                #[trigger] list@[k],
            ) by {}
            assert(jitems.take(0) =~= Seq::<Json>::empty());
            assert(member(json_view(*doc), "assets"@) == Some(Json::Array(jitems)));
        }
        let mut assets: Vec<RawAsset> = Vec::new();
        proof {
            assert(raw_views(assets@) =~= Seq::<(Seq<char>, Seq<char>)>::empty());
        }
        let mut i: usize = 0;
        while i < list.len()
            invariant
                i <= list@.len(),
                jitems.len() == list@.len(),
                forall|k: int| 0 <= k < list@.len() ==> jitems[k] == json_view(#[trigger] list@[k]),
                asset_entries(jitems.take(i as int)) == Ok::<_, Seq<char>>(raw_views(assets@)),
                member(json_view(*doc), "assets"@) == Some(Json::Array(jitems)),
                str_field(json_view(*doc), "tag_name"@) == Ok::<_, Seq<char>>(tag@),
            decreases list@.len() - i,
        {
            proof {
                let t = jitems.take(i + 1);
                assert(t.drop_last() =~= jitems.take(i as int));
                assert(t.last() == json_view(list@[i as int]));
            }
            let name = match text_field(&list[i], "name") {
                Ok(n) => n,
                Err(e) => {
                    proof {
                        assert(jitems[i as int] == json_view(list@[i as int]));
                        lemma_entries_err(jitems, i as int);
                        assert(member(json_view(*doc), "assets"@) == Some(Json::Array(jitems)));
                    }
                    return Err(e);
                },
            };
            let url = match text_field(&list[i], "browser_download_url") {
                Ok(u) => u,
                Err(e) => {
                    proof {
                        assert(jitems[i as int] == json_view(list@[i as int]));
                        lemma_entries_err(jitems, i as int);
                        assert(member(json_view(*doc), "assets"@) == Some(Json::Array(jitems)));
                    }
                    return Err(e);
                },
            };
            let ghost prev = assets@;
            assets.push(RawAsset { name: name.to_owned(), browser_download_url: url.to_owned() });
            proof {
                assert(assets@.drop_last() =~= prev);
                assert(raw_views(assets@) =~= raw_views(prev).push((name@, url@)));
            }
            i = i + 1;
        }
        proof {
            assert(jitems.take(i as int) =~= jitems);
        }
        Self::from_raw(tag, assets.as_slice(), os)
    }

    /// Parse a release description text and pick the asset for `os`.
    pub fn parse(json: &str, os: &str) -> (r: Result<Release>)
        ensures
            parsed_release(json@, os@, r),
    {
        match parse_json(json) {
            Ok(doc) => Self::from_json(&doc, os),
            Err(e) => Err(bad_payload(e.as_str())),
        }
    }

    /// Whether this release is strictly newer than `current`.
    pub fn is_upgrade_over(&self, current: &SemVer) -> (r: bool)
        ensures
            r == semver_less(current@, self.version@),
    {
        current.precedes(&self.version)
    }
}

/// The text of a string member, or the payload error saying why it is
/// missing or not a string.
fn text_field<'a>(doc: &'a JsonValue, key: &str) -> (r: Result<&'a str>)
    ensures
        match str_field(json_view(*doc), key@) {
            Ok(t) => r matches Ok(x) && x@ == t,
            Err(d) => r matches Err(Error::Other(m)) && m@ == "bad release payload: "@ + d,
        },
{
    match doc.get(key) {
        Some(v) => match v.as_str() {
            Some(t) => Ok(t),
            None => {
                let mut m = chars_of("invalid type for field `");
                let k = chars_of(key);
                push_all(&mut m, k.as_slice());
                m.push('`');
                let detail = string_of(m.as_slice());
                proof {
                    reveal_strlit("`");
                    assert(detail@ =~= "invalid type for field `"@ + key@ + "`"@);
                }
                Err(bad_payload(detail.as_str()))
            },
        },
        None => {
            let mut m = chars_of("missing field `");
            let k = chars_of(key);
            push_all(&mut m, k.as_slice());
            m.push('`');
            let detail = string_of(m.as_slice());
            proof {
                reveal_strlit("`");
                assert(detail@ =~= "missing field `"@ + key@ + "`"@);
            }
            Err(bad_payload(detail.as_str()))
        },
    }
}

/// Once an entry is malformed, the whole list reports it.
proof fn lemma_entries_err(items: Seq<Json>, i: int)
    requires
        0 <= i < items.len(),
        asset_entries(items.take(i)) is Ok,
        asset_entry(items[i]) is Err,
    ensures
        asset_entries(items) == Err::<Seq<(Seq<char>, Seq<char>)>, Seq<char>>(
            asset_entry(items[i])->Err_0,
        ),
    decreases items.len() - i,
{
    let e = asset_entry(items[i])->Err_0;
    if i == items.len() - 1 {
        assert(items.drop_last() =~= items.take(i));
    } else {
        let d = items.drop_last();
        assert(d.take(i) =~= items.take(i));
        assert(d[i] == items[i]);
        lemma_entries_err(d, i);
    }
}

fn bad_payload(detail: &str) -> (r: Error)
    ensures
        r matches Error::Other(m) && m@ == "bad release payload: "@ + detail@,
{
    let mut m = chars_of("bad release payload: ");
    let d = chars_of(detail);
    push_all(&mut m, d.as_slice());
    Error::Other(string_of(m.as_slice()))
}

// ---------------------------------------------------------------------------
// Checksums
// ---------------------------------------------------------------------------

/// The SHA-256 digest of the bytes, as `sha2` computes it.
pub uninterp spec fn sha256_digest(data: Seq<u8>) -> Seq<u8>;

/// `sha2::Sha256::digest`.
#[verifier::external_body]
fn sha256(data: &[u8]) -> (r: Vec<u8>)
    ensures
        r@ == sha256_digest(data@),
{
    <sha2::Sha256 as sha2::Digest>::digest(data).to_vec()
}

/// The lowercase hexadecimal digit of a value below sixteen.
pub open spec fn nibble_char(n: int) -> char {
    if n < 10 {
        (n + 48) as char
    } else {
        (n + 87) as char
    }
}

/// Bytes as lowercase hexadecimal, two digits per byte (the `{:x}` form of
/// a digest).
pub open spec fn hex_bytes(bs: Seq<u8>) -> Seq<char>
    decreases bs.len(),
{
    if bs.len() == 0 {
        Seq::empty()
    } else {
        hex_bytes(bs.drop_last()) + seq![
            nibble_char(bs.last() as int / 16),
            nibble_char(bs.last() as int % 16),
        ]
    }
}

fn nibble(n: u8) -> (c: char)
    requires
        n < 16,
    ensures
        c == nibble_char(n as int),
{
    if n < 10 {
        (n + 48) as char
    } else {
        (n + 87) as char
    }
}

/// Format bytes as lowercase hexadecimal.
pub fn hex_string(bs: &[u8]) -> (r: String)
    ensures
        r@ == hex_bytes(bs@),
{
    let mut out: Vec<char> = Vec::new();
    let mut i: usize = 0;
    while i < bs.len()
        invariant
            i <= bs@.len(),
            out@ == hex_bytes(bs@.take(i as int)),
        decreases bs@.len() - i,
    {
        let b = bs[i];
        out.push(nibble(b / 16));
        out.push(nibble(b % 16));
        proof {
            let t = bs@.take(i + 1);
            assert(t.drop_last() =~= bs@.take(i as int));
            assert(t.last() == b);
        }
        i = i + 1;
    }
    assert(bs@.take(bs@.len() as int) =~= bs@);
    string_of(out.as_slice())
}

/// The first whitespace-separated token of a text, if any.
pub open spec fn first_token(text: Seq<char>) -> Option<Seq<char>> {
    let t = trim_start(text);
    if t.len() == 0 {
        None
    } else {
        Some(t.take(token_len(t, 0)))
    }
}

/// The length of the run of non-whitespace characters starting at `i`.
pub open spec fn token_len(t: Seq<char>, i: int) -> int
    decreases t.len() - i,
{
    if i < 0 || i >= t.len() || is_ws(t[i]) {
        i
    } else {
        token_len(t, i + 1)
    }
}

/// Whether a token is non-empty and made of hexadecimal digits.
pub open spec fn hex_token(t: Seq<char>) -> bool {
    t.len() > 0 && forall|i: int| 0 <= i < t.len() ==> is_hex_digit(#[trigger] t[i])
}

/// What a `.sha256` file yields: its first token, lowercased, when that is
/// hexadecimal.
pub open spec fn checksum_of(text: Seq<char>) -> Option<Seq<char>> {
    match first_token(text) {
        Some(t) => {
            let l = t.map_values(|c: char| ascii_lower(c));
            if hex_token(l) {
                Some(l)
            } else {
                None
            }
        },
        None => None,
    }
}

/// Whether every character of `token` is a hexadecimal digit (and there is
/// at least one).
pub fn is_hex(token: &str) -> (r: bool)
    ensures
        r == hex_token(token@),
{
    let cs = chars_of(token);
    if cs.len() == 0 {
        return false;
    }
    let mut i: usize = 0;
    while i < cs.len()
        invariant
            i <= cs@.len(),
            cs@ == token@,
            forall|k: int| 0 <= k < i ==> is_hex_digit(#[trigger] cs@[k]),
        decreases cs@.len() - i,
    {
        if !hex_digit(cs[i]) {
            return false;
        }
        i = i + 1;
    }
    true
}

/// Extract the lowercase hex digest from a `.sha256` file body: its first
/// whitespace-separated token, which must be hexadecimal.
pub fn parse_checksum(text: &str) -> (r: Result<String>)
    ensures
        match checksum_of(text@) {
            Some(c) => r matches Ok(s) && s@ == c,
            None => r matches Err(Error::Other(m)) && m@ == "malformed .sha256 file"@,
        },
{
    let cs = chars_of(text);
    let mut i: usize = 0;
    assert(cs@.skip(0) =~= cs@);
    while i < cs.len() && is_whitespace(cs[i])
        invariant
            i <= cs@.len(),
            cs@ == text@,
            trim_start(text@) == trim_start(cs@.skip(i as int)),
        decreases cs@.len() - i,
    {
        assert(cs@.skip(i as int).drop_first() =~= cs@.skip(i + 1));
        i = i + 1;
    }
    let t = skip_chars(cs.as_slice(), i);
    assert(trim_start(t@) == t@);
    if t.len() == 0 {
        return Err(Error::Other("malformed .sha256 file".to_owned()));
    }
    let mut j: usize = 0;
    while j < t.len() && !is_whitespace(t[j])
        invariant
            j <= t@.len(),
            token_len(t@, 0) == token_len(t@, j as int),
        decreases t@.len() - j,
    {
        j = j + 1;
    }
    let token = crate::text::take_chars(t.as_slice(), j);
    let lower = lower_chars(token.as_slice());
    let candidate = string_of(lower.as_slice());
    if is_hex(candidate.as_str()) {
        Ok(candidate)
    } else {
        Err(Error::Other("malformed .sha256 file".to_owned()))
    }
}

/// Reject `data` unless its SHA-256 digest, in lowercase hex, equals
/// `expected_hex`.
pub fn verify_bytes(expected_hex: &str, data: &[u8]) -> (r: Result<()>)
    ensures
        r is Ok <==> hex_bytes(sha256_digest(data@)) == expected_hex@,
        r matches Err(e) ==> (e matches Error::Other(m) && m@ == "checksum mismatch: expected "@
            + expected_hex@ + ", got "@ + hex_bytes(sha256_digest(data@))),
{
    let digest = sha256(data);
    let actual = hex_string(digest.as_slice());
    if str_eq(actual.as_str(), expected_hex) {
        Ok(())
    } else {
        let mut m = chars_of("checksum mismatch: expected ");
        let e = chars_of(expected_hex);
        push_all(&mut m, e.as_slice());
        let mid = chars_of(", got ");
        push_all(&mut m, mid.as_slice());
        let a = chars_of(actual.as_str());
        push_all(&mut m, a.as_slice());
        Err(Error::Other(string_of(m.as_slice())))
    }
}

/// The path `path` with `tag` appended to its file name.
pub fn sibling(path: &str, tag: &str) -> (r: String)
    ensures
        r@ == path@ + tag@,
{
    let mut out = chars_of(path);
    let t = chars_of(tag);
    push_all(&mut out, t.as_slice());
    string_of(out.as_slice())
}

/// The text a download's bytes decode to: `String::from_utf8_lossy`.
pub uninterp spec fn utf8_lossy(bytes: Seq<u8>) -> Seq<char>;

/// `String::from_utf8_lossy`.
#[verifier::external_body]
fn decode_lossy(bytes: &[u8]) -> (r: String)
    ensures
        r@ == utf8_lossy(bytes@),
{
    String::from_utf8_lossy(bytes).into_owned()
}

/// The text of UTF-8 bytes, or the decoding error: `std::str::from_utf8`.
pub uninterp spec fn utf8_strict(bytes: Seq<u8>) -> core::result::Result<Seq<char>, Seq<char>>;

/// `std::str::from_utf8`.
#[verifier::external_body]
pub(crate) fn decode_strict(bytes: &[u8]) -> (r: core::result::Result<String, String>)
    ensures
        match r {
            Ok(s) => utf8_strict(bytes@) == Ok::<Seq<char>, Seq<char>>(s@),
            Err(e) => utf8_strict(bytes@) == Err::<Seq<char>, Seq<char>>(e@),
        },
{
    std::str::from_utf8(bytes).map(|s| s.to_owned()).map_err(|e| e.to_string())
}

// ---------------------------------------------------------------------------
// The upgrade itself
// ---------------------------------------------------------------------------

/// What parsing a release description text gives for `os`.
pub open spec fn parsed_release(json: Seq<char>, os: Seq<char>, r: Result<Release>) -> bool {
    match json_parse(json) {
        Err(e) => r matches Err(Error::Other(m)) && m@ == "bad release payload: "@ + e,
        Ok(j) => described_release(j, os, r),
    }
}

/// What a release description payload gives for `os`: the release its
/// UTF-8 text describes, or the error for text that is not UTF-8 or not a
/// release description.
pub open spec fn payload_release(bytes: Seq<u8>, os: Seq<char>, r: Result<Release>) -> bool {
    match utf8_strict(bytes) {
        Ok(t) => parsed_release(t, os, r),
        Err(e) => r matches Err(Error::Other(m)) && m@ == "release payload is not UTF-8: "@ + e,
    }
}

/// Decode a fetched release description payload for platform `os`.
pub fn release_from_payload(bytes: &[u8], os: &str) -> (r: Result<Release>)
    ensures
        payload_release(bytes@, os@, r),
{
    match decode_strict(bytes) {
        Ok(t) => Release::parse(t.as_str(), os),
        Err(e) => {
            let mut m = chars_of("release payload is not UTF-8: ");
            let d = chars_of(e.as_str());
            push_all(&mut m, d.as_slice());
            Err(Error::Other(string_of(m.as_slice())))
        },
    }
}

/// Whether the tree `after` holds the outcome of a binary swap at `exe`: the
/// file that was at `exe` (when there was one) is now its `.old` sibling.
pub open spec fn swapped(before: Tree, after: Tree, exe: Seq<char>) -> bool {
    before.contains_key(path_key(exe)) ==> after.contains_key(path_key(exe + ".old"@))
        && after[path_key(exe + ".old"@)] == before[path_key(exe)]
}

/// The tree steps of a swap: stage `.part`, drop a stale `.old`, move the exe
/// to `.old`, move `.part` onto the exe.
proof fn lemma_swap(t0: Tree, t1: Tree, t2: Tree, t3: Tree, t4: Tree, exe: Seq<char>, bytes: Seq<u8>)
    requires
        names_file(exe),
        t1 == add_dirs(t0, path_normals(exe + ".part"@)).insert(path_key(exe + ".part"@), Node::File(bytes)),
        t2 == t1 || t2 == t1.remove(path_key(exe + ".old"@)),
        t3 == moved(t2, path_key(exe), path_key(exe + ".old"@)),
        t4 == moved(t3, path_key(exe + ".part"@), path_key(exe)),
    ensures
        t4.contains_key(path_key(exe)),
        t4[path_key(exe)] == Node::File(bytes),
        swapped(t0, t4, exe),
{
    reveal_strlit(".part");
    reveal_strlit(".old");
    lemma_key_extend(exe, ".part"@);
    lemma_key_extend(exe, ".old"@);
    let ke = path_key(exe);
    let kp = path_key(exe + ".part"@);
    let ko = path_key(exe + ".old"@);
    let last = split_on(exe, '/').last();
    assert(last + ".part"@ != last + ".old"@) by {
        assert((last + ".part"@).len() != (last + ".old"@).len());
    }
    assert(last != last + ".old"@) by {
        assert(last.len() != (last + ".old"@).len());
    }
    assert(last != last + ".part"@) by {
        assert(last.len() != (last + ".part"@).len());
    }
    assert(kp != ko) by {
        assert(kp.last() != ko.last());
    }
    assert(ke != ko) by {
        assert(ke.last() != ko.last());
    }
    assert(ke != kp) by {
        assert(ke.last() != kp.last());
    }
    lemma_same_len_not_under(kp, ko);
    lemma_same_len_not_under(kp, ke);
    lemma_same_len_not_under(ke, ko);
    lemma_same_len_not_under(ko, kp);
    lemma_same_len_not_under(ko, ke);
    assert(t2.contains_key(kp) && t2[kp] == Node::File(bytes));
    lemma_moved_keeps(t2, ke, ko, kp);
    lemma_moved_lands(t3, kp, ke);
    if t0.contains_key(ke) {
        lemma_add_dirs_keeps(t0, path_normals(exe + ".part"@), ke);
        assert(t2.contains_key(ke) && t2[ke] == t0[ke]);
        lemma_moved_lands(t2, ke, ko);
        lemma_moved_keeps(t3, kp, ke, ko);
    }
}

/// Drive a self-upgrade against injected backends.
pub struct Upgrader<'a, F, D, R> {
    fs: &'a mut F,
    downloader: &'a D,
    reporter: &'a R,
}

impl<'a, F: Fs, D: Downloader, R: Reporter> Upgrader<'a, F, D, R> {
    /// The tree of the filesystem the upgrader works on.
    pub closed spec fn tree(&self) -> Tree {
        self.fs.tree()
    }

    /// Whether the filesystem the upgrader works on is dependable.
    pub closed spec fn dependable(&self) -> bool {
        self.fs.dependable()
    }

    /// Whether the upgrader's downloader may hand back `bytes` for `url`.
    pub closed spec fn serves(&self, url: Seq<char>, bytes: Seq<u8>) -> bool {
        self.downloader.serves(url, bytes)
    }

    /// Whether an upgrade to `rel` with binary `b` and checksum companion
    /// `cb` went through every check: the release description came from
    /// [`RELEASES_URL`] and names `rel` for `os`, the binary and the
    /// companion came from the asset's URL and its `.sha256` sibling, and the
    /// binary's SHA-256 is the one the companion declares.
    pub open spec fn verified_upgrade(
        &self,
        os: Seq<char>,
        rel: Release,
        b: Seq<u8>,
        cb: Seq<u8>,
    ) -> bool {
        &&& exists|rb: Seq<u8>|
            #[trigger] self.serves(RELEASES_URL@, rb) && payload_release(rb, os, Ok(rel))
        &&& self.serves(rel.asset.url@, b)
        &&& self.serves(rel.asset.url@ + ".sha256"@, cb)
        &&& checksum_of(utf8_lossy(cb)) == Some(hex_bytes(sha256_digest(b)))
    }

    /// An upgrader over the given backends.
    pub fn new(fs: &'a mut F, downloader: &'a D, reporter: &'a R) -> (r: Upgrader<'a, F, D, R>)
        ensures
            r.tree() == old(fs).tree(),
            r.dependable() == old(fs).dependable(),
            forall|u: Seq<char>, b: Seq<u8>| #[trigger] r.serves(u, b) == downloader.serves(u, b),
    {
        Upgrader { fs, downloader, reporter }
    }

    /// Resolve, verify, and swap in the latest release for platform `os` if
    /// it is newer than `current`.
    ///
    /// The release description is fetched from [`RELEASES_URL`]; the binary
    /// is accepted only when its SHA-256 matches the `.sha256` companion.
    /// When the running binary is already current nothing on disk changes;
    /// after an upgrade of a path naming a file, that path holds the new
    /// binary, checked against its published SHA-256, and its `.old` sibling
    /// the previous one. On a dependable filesystem a failed upgrade leaves
    /// the disk as it was; on any filesystem it never loses the previous
    /// binary, which stays at the exe path or, when putting it back was
    /// refused too, at the `.old` backup.
    pub fn run(&mut self, exe: &str, current: &SemVer, os: &str) -> (r: Result<UpgradeOutcome>)
        ensures
            r matches Ok(UpgradeOutcome::Upgraded(v)) ==> exists|rel: Release, b: Seq<u8>, cb: Seq<u8>|
                #[trigger] old(self).verified_upgrade(os@, rel, b, cb) && rel.version == v && (
                names_file(exe@) ==> final(self).tree().contains_key(path_key(exe@))
                    && final(self).tree()[path_key(exe@)] == Node::File(b)),
            old(self).dependable() && r is Err ==> final(self).tree() == old(self).tree(),
            r is Err && names_file(exe@) && old(self).tree().contains_key(path_key(exe@))
                ==> binary_kept(old(self).tree()[path_key(exe@)], final(self).tree(), exe@),
            r matches Ok(UpgradeOutcome::Upgraded(v)) ==> semver_less(current@, v@),
            r matches Ok(UpgradeOutcome::UpToDate) ==> final(self).tree() == old(self).tree(),
            r matches Ok(UpgradeOutcome::Upgraded(v)) && names_file(exe@) ==> swapped(
                old(self).tree(),
                final(self).tree(),
                exe@,
            ),
    {
        self.reporter.report(Progress::Phase("Checking for updates"));
        let release = self.fetch_release(os)?;
        if !release.is_upgrade_over(current) {
            return Ok(UpgradeOutcome::UpToDate);
        }
        self.reporter.report(Progress::Phase("Downloading"));
        let reporter = self.reporter;
        let url = Url::new(release.asset.url.clone());
        let bytes = self.downloader.fetch(
            &url,
            &|done: u64, total: Option<u64>| reporter.report(Progress::Bytes { done, total }),
        )?;
        let checksum = self.fetch_checksum(&release.asset)?;
        verify_bytes(checksum.as_str(), bytes.as_slice())?;
        proof {
            let cb = choose|cb: Seq<u8>|
                #[trigger] self.serves(release.asset.url@ + ".sha256"@, cb) && checksum_of(
                    utf8_lossy(cb),
                ) == Some(checksum@);
            assert(self.verified_upgrade(os@, release, bytes@, cb));
        }
        self.reporter.report(Progress::Phase("Replacing binary"));
        self.replace_binary(exe, bytes.as_slice())?;
        Ok(UpgradeOutcome::Upgraded(release.version))
    }

    /// Fetch and decode the release description for platform `os`.
    ///
    /// The description is asked of [`RELEASES_URL`]; what comes back depends
    /// on the downloader, and a release returned is what
    /// [`release_from_payload`] makes of a body served for that URL.
    pub fn fetch_release(&self, os: &str) -> (r: Result<Release>)
        ensures
            r is Ok ==> exists|b: Seq<u8>|
                #[trigger] self.serves(RELEASES_URL@, b) && payload_release(b, os@, r),
    {
        let url = Url::new(RELEASES_URL.to_owned());
        let bytes = self.downloader.fetch(&url, &|done: u64, total: Option<u64>| {})?;
        let r = release_from_payload(bytes.as_slice(), os);
        proof {
            assert(self.serves(RELEASES_URL@, bytes@));
        }
        r
    }

    /// Fetch and parse the asset's `.sha256` companion file.
    ///
    /// The companion is asked of the asset's URL with `.sha256` appended;
    /// what comes back depends on the downloader, and a checksum returned is
    /// the one a body served for that URL declares.
    pub fn fetch_checksum(&self, asset: &Asset) -> (r: Result<String>)
        ensures
            r matches Ok(c) ==> exists|b: Seq<u8>|
                #[trigger] self.serves(asset.url@ + ".sha256"@, b) && checksum_of(utf8_lossy(b))
                    == Some(c@),
    {
        let url = Url::new(sibling(asset.url.as_str(), ".sha256"));
        let bytes = self.downloader.fetch(&url, &|done: u64, total: Option<u64>| {})?;
        let text = decode_lossy(bytes.as_slice());
        let r = parse_checksum(text.as_str());
        proof {
            if r is Ok {
                assert(checksum_of(utf8_lossy(bytes@)) == Some(r->Ok_0@));
                assert(self.serves(asset.url@ + ".sha256"@, bytes@));
            }
        }
        r
    }

    /// Stage the new binary and rename it over the running exe, keeping the
    /// previous binary as the `.old` sibling; a failed final rename moves the
    /// backup back. On a dependable filesystem the swap always goes through.
    pub fn replace_binary(&mut self, exe: &str, bytes: &[u8]) -> (r: Result<()>)
        ensures
            r is Ok && names_file(exe@) ==> final(self).tree().contains_key(path_key(exe@))
                && final(self).tree()[path_key(exe@)] == Node::File(bytes@)
                && swapped(old(self).tree(), final(self).tree(), exe@),
            r is Err && names_file(exe@) && old(self).tree().contains_key(path_key(exe@))
                ==> binary_kept(old(self).tree()[path_key(exe@)], final(self).tree(), exe@),
            old(self).dependable() ==> r is Ok && final(self).dependable(),
            forall|u: Seq<char>, b: Seq<u8>| #[trigger] final(self).serves(u, b) == old(self).serves(u, b),
    {
        let part = sibling(exe, ".part");
        let old = sibling(exe, ".old");
        let ghost t0 = self.fs.tree();
        proof {
            if names_file(exe@) {
                lemma_swap_keys(exe@);
            }
        }
        self.fs.write(part.as_str(), bytes)?;
        let ghost t1 = self.fs.tree();
        proof {
            if names_file(exe@) && t0.contains_key(path_key(exe@)) {
                lemma_add_dirs_keeps(t0, path_normals(exe@ + ".part"@), path_key(exe@));
                assert(t1.contains_key(path_key(exe@)) && t1[path_key(exe@)] == t0[path_key(exe@)]);
            }
        }
        if self.fs.path_exists(old.as_str())? {
            let ghost before = self.fs.tree();
            let removed = self.fs.remove_file(old.as_str());
            proof {
                if names_file(exe@) && t0.contains_key(path_key(exe@)) {
                    assert(before.contains_key(path_key(exe@)));
                }
            }
            removed?;
        }
        let ghost t2 = self.fs.tree();
        proof {
            if names_file(exe@) && t0.contains_key(path_key(exe@)) {
                assert(t2.contains_key(path_key(exe@)) && t2[path_key(exe@)] == t0[path_key(exe@)]);
            }
        }
        self.fs.rename(exe, old.as_str())?;
        let ghost t3 = self.fs.tree();
        match self.fs.rename(part.as_str(), exe) {
            Ok(()) => {
                proof {
                    if names_file(exe@) {
                        lemma_swap(t0, t1, t2, t3, self.fs.tree(), exe@, bytes@);
                    }
                }
                Ok(())
            },
            Err(cause) => {
                let ghost t4 = self.fs.tree();
                proof {
                    if names_file(exe@) && t0.contains_key(path_key(exe@)) {
                        lemma_moved_lands(t2, path_key(exe@), path_key(exe@ + ".old"@));
                    }
                }
                let restored = self.restore_backup(old.as_str(), exe);
                proof {
                    if names_file(exe@) && t0.contains_key(path_key(exe@)) && restored is Ok {
                        lemma_moved_lands(t4, path_key(exe@ + ".old"@), path_key(exe@));
                    }
                }
                Err(cause)
            },
        }
    }

    /// Move the backup binary back onto the exe path after a failed swap.
    ///
    /// On success the backup lands on the exe path, and it always does on a
    /// dependable filesystem; a refused rename keeps everything outside the
    /// exe path.
    pub fn restore_backup(&mut self, backup: &str, exe: &str) -> (r: Result<()>)
        ensures
            r is Ok ==> final(self).tree() == moved(old(self).tree(), path_key(backup@), path_key(exe@)),
            r is Err ==> kept_outside(old(self).tree(), final(self).tree(), path_key(exe@)),
            old(self).dependable() ==> r is Ok && final(self).dependable(),
            forall|u: Seq<char>, b: Seq<u8>| #[trigger] final(self).serves(u, b) == old(self).serves(u, b),
    {
        self.fs.rename(backup, exe)
    }
}

/// Whether the executable's previous node `bin` survives in `t`: at the exe
/// path, or at its `.old` backup.
pub open spec fn binary_kept(bin: Node, t: Tree, exe: Seq<char>) -> bool {
    (t.contains_key(path_key(exe)) && t[path_key(exe)] == bin) || (t.contains_key(
        path_key(exe + ".old"@),
    ) && t[path_key(exe + ".old"@)] == bin)
}

/// The keys of a swap at `exe` are distinct and none lies under another.
proof fn lemma_swap_keys(exe: Seq<char>)
    requires
        names_file(exe),
    ensures
        path_key(exe) != path_key(exe + ".part"@),
        path_key(exe) != path_key(exe + ".old"@),
        path_key(exe + ".part"@) != path_key(exe + ".old"@),
        !under(path_key(exe), path_key(exe + ".part"@)),
        !under(path_key(exe), path_key(exe + ".old"@)),
        !under(path_key(exe + ".old"@), path_key(exe)),
        !under(path_key(exe + ".old"@), path_key(exe + ".part"@)),
        !under(path_key(exe + ".part"@), path_key(exe)),
        !under(path_key(exe + ".part"@), path_key(exe + ".old"@)),
{
    reveal_strlit(".part");
    reveal_strlit(".old");
    lemma_key_extend(exe, ".part"@);
    lemma_key_extend(exe, ".old"@);
    let ke = path_key(exe);
    let kp = path_key(exe + ".part"@);
    let ko = path_key(exe + ".old"@);
    let last = split_on(exe, '/').last();
    assert(last + ".part"@ != last + ".old"@) by {
        assert((last + ".part"@).len() != (last + ".old"@).len());
    }
    assert(last != last + ".old"@) by {
        assert(last.len() != (last + ".old"@).len());
    }
    assert(last != last + ".part"@) by {
        assert(last.len() != (last + ".part"@).len());
    }
    assert(kp != ko) by {
        assert(kp.last() != ko.last());
    }
    assert(ke != ko) by {
        assert(ke.last() != ko.last());
    }
    assert(ke != kp) by {
        assert(ke.last() != kp.last());
    }
    lemma_same_len_not_under(kp, ko);
    lemma_same_len_not_under(kp, ke);
    lemma_same_len_not_under(ke, ko);
    lemma_same_len_not_under(ke, kp);
    lemma_same_len_not_under(ko, kp);
    lemma_same_len_not_under(ko, ke);
}

/// Remove a stale `.old` backup beside the executable at `exe`.
pub fn cleanup_stale<F: Fs>(fs: &mut F, exe: &str) -> (r: Result<()>)
    ensures
        r is Ok ==> final(fs).tree() == old(fs).tree().remove(path_key(exe@ + ".old"@)),
        old(fs).dependable() ==> r is Ok && final(fs).dependable(),
{
    let old = sibling(exe, ".old");
    if fs.path_exists(old.as_str())? {
        fs.remove_file(old.as_str())?;
    } else {
        assert(fs.tree() =~= fs.tree().remove(path_key(old@)));
    }
    Ok(())
}

/// The release asset chosen for `os` is the first one whose name carries the
/// `-<os>-` marker and is not a `.sha256` checksum: a checksum file is never
/// chosen, and a binary with the marker is always found.
pub proof fn law_asset_is_binary(assets: Seq<(Seq<char>, Seq<char>)>, os: Seq<char>)
    ensures
        first_match(assets, os) matches Some(i) ==> 0 <= i < assets.len() && !has_suffix(
            assets[i].0,
            ".sha256"@,
        ) && has_infix(assets[i].0, "-"@ + os + "-"@) && forall|j: int|
            0 <= j < i ==> has_suffix(#[trigger] assets[j].0, ".sha256"@) || !has_infix(
                assets[j].0,
                "-"@ + os + "-"@,
            ),
        (exists|j: int|
            0 <= j < assets.len() && !has_suffix(#[trigger] assets[j].0, ".sha256"@) && has_infix(
                assets[j].0,
                "-"@ + os + "-"@,
            )) ==> first_match(assets, os) is Some,
{
    lemma_first_match(assets, os);
    if first_match(assets, os) is None {
        assert forall|j: int| 0 <= j < assets.len() implies !(!has_suffix(#[trigger] assets[j].0, ".sha256"@)
            && has_infix(assets[j].0, "-"@ + os + "-"@)) by {
            assert(!asset_matches(assets[j], os));
        }
    }
}

} // verus!
