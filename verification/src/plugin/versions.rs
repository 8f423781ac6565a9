//! Extracting a plugin's available versions from a remote JSON listing.
//!
//! A [`VersionsSource`] declares a JSON URL plus extraction rules. The
//! application fetches the body; this module yields the version strings it
//! encodes, so a plugin can self-declare its version line instead of
//! hardcoding a list.

use vstd::prelude::*;

use crate::error::{Error, Result};
use crate::json::{json_parse, json_view, member, member_of, parse_json, Json, JsonValue};
use crate::plugin::VersionsSource;
use crate::text::{chars_of, ends_with, has_prefix, has_suffix, push_all, skip_chars, starts_with, string_of, take_chars};
use crate::upgrade::{decode_strict, utf8_strict};
use crate::version::{semver_parse, SemVer};

verus! {

/// The text with the declared prefix and suffix removed where present.
pub open spec fn stripped_text(src: VersionsSource, raw: Seq<char>) -> Seq<char> {
    let a = match src.strip {
        Some(p) => if has_prefix(raw, p@) {
            raw.skip(p@.len() as int)
        } else {
            raw
        },
        None => raw,
    };
    match src.suffix {
        Some(x) => if has_suffix(a, x@) {
            a.take(a.len() - x@.len())
        } else {
            a
        },
        None => a,
    }
}

/// A candidate's usable form: stripped, a valid SemVer, and (for a stable
/// listing) without a pre-release segment.
pub open spec fn normalized(src: VersionsSource, raw: Seq<char>) -> Option<Seq<char>> {
    let s = stripped_text(src, raw);
    match semver_parse(s) {
        Err(_) => None,
        Ok(v) => if src.stable_only && v.3.len() > 0 {
            None
        } else {
            Some(s)
        },
    }
}

/// The usable forms of candidates, in order.
pub open spec fn normalized_all(src: VersionsSource, raws: Seq<Seq<char>>) -> Seq<Seq<char>>
    decreases raws.len(),
{
    if raws.len() == 0 {
        Seq::empty()
    } else {
        let rest = normalized_all(src, raws.drop_last());
        match normalized(src, raws.last()) {
            Some(s) => rest.push(s),
            None => rest,
        }
    }
}

/// The strings an array yields: each element's member `field` when named,
/// the element itself otherwise, keeping only string values.
pub open spec fn array_strings(es: Seq<Json>, field: Option<Seq<char>>) -> Seq<Seq<char>>
    decreases es.len(),
{
    if es.len() == 0 {
        Seq::empty()
    } else {
        let rest = array_strings(es.drop_last(), field);
        let v = match field {
            Some(f) => member(es.last(), f),
            None => Some(es.last()),
        };
        match v {
            Some(Json::Str(s)) => rest.push(s),
            _ => rest,
        }
    }
}

/// The keys of an object's members, in order.
pub open spec fn keys_of(m: Seq<(Seq<char>, Json)>) -> Seq<Seq<char>> {
    m.map_values(|e: (Seq<char>, Json)| e.0)
}

/// The candidate version strings a document encodes: an array of objects
/// (`field` names the key to read) or of bare strings, or an object whose
/// keys are the versions (`field` names the nested version map).
pub open spec fn candidates_of(field: Option<Seq<char>>, j: Json) -> Seq<Seq<char>> {
    match j {
        Json::Array(es) => array_strings(es, field),
        Json::Object(m) => match field {
            Some(f) => match member_of(m, f) {
                Some(Json::Object(inner)) => keys_of(inner),
                _ => Seq::empty(),
            },
            None => keys_of(m),
        },
        _ => Seq::empty(),
    }
}

/// The view of an optional string.
pub open spec fn opt_text(o: Option<String>) -> Option<Seq<char>> {
    match o {
        Some(s) => Some(s@),
        None => None,
    }
}

/// The views of strings.
pub open spec fn texts(v: Seq<String>) -> Seq<Seq<char>> {
    v.map_values(|s: String| s@)
}

/// What parsing a listing body yields.
pub open spec fn listing_outcome(src: VersionsSource, body: Seq<char>, r: Result<Vec<String>>) -> bool {
    match json_parse(body) {
        Err(e) => r matches Err(Error::Other(m)) && m@ == "versions source "@ + src.url@
            + ": response body is not valid JSON: "@ + e,
        Ok(j) => {
            let vs = normalized_all(src, candidates_of(opt_text(src.field), j));
            if vs.len() == 0 {
                r matches Err(Error::Other(m)) && m@ == "versions source "@ + src.url@
                    + " yielded no supported versions"@
            } else {
                r matches Ok(list) && texts(list@) == vs
            }
        },
    }
}

proof fn lemma_array_view(v: JsonValue)
    requires
        v is Array,
    ensures
        json_view(v) matches Json::Array(ev) && ev.len() == v->Array_0@.len() && forall|i: int|
            0 <= i < v->Array_0@.len() ==> #[trigger] ev[i] == json_view(v->Array_0@[i]),
{
}

proof fn lemma_object_keys(v: JsonValue)
    requires
        v is Object,
    ensures
        json_view(v) matches Json::Object(mv) && keys_of(mv) == texts(
            v->Object_0@.map_values(|e: (String, JsonValue)| e.0),
        ),
{
    let mv = json_view(v)->Object_0;
    assert(keys_of(mv) =~= texts(v->Object_0@.map_values(|e: (String, JsonValue)| e.0)));
}

fn object_keys(m: &Vec<(String, JsonValue)>) -> (r: Vec<String>)
    ensures
        texts(r@) == texts(m@.map_values(|e: (String, JsonValue)| e.0)),
{
    let mut out: Vec<String> = Vec::new();
    let mut i: usize = 0;
    while i < m.len()
        invariant
            i <= m@.len(),
            texts(out@) == texts(m@.map_values(|e: (String, JsonValue)| e.0)).take(i as int),
        decreases m@.len() - i,
    {
        let ghost prev = texts(out@);
        let k = m[i].0.clone();
        out.push(k);
        proof {
            let all = texts(m@.map_values(|e: (String, JsonValue)| e.0));
            assert(texts(out@) =~= prev.push(k@));
            assert(all[i as int] == m@[i as int].0@);
            assert(all.take(i + 1) =~= all.take(i as int).push(all[i as int]));
        }
        i = i + 1;
    }
    assert(texts(m@.map_values(|e: (String, JsonValue)| e.0)).take(m@.len() as int) =~= texts(
        m@.map_values(|e: (String, JsonValue)| e.0),
    ));
    out
}

impl VersionsSource {
    /// Remove the declared prefix and suffix when present, leaving the
    /// version otherwise.
    pub fn stripped(&self, raw: &str) -> (r: String)
        ensures
            r@ == stripped_text(*self, raw@),
    {
        let cs = chars_of(raw);
        let a = match &self.strip {
            Some(p) => {
                let pc = chars_of(p.as_str());
                if starts_with(cs.as_slice(), pc.as_slice()) {
                    skip_chars(cs.as_slice(), pc.len())
                } else {
                    cs
                }
            },
            None => cs,
        };
        let b = match &self.suffix {
            Some(x) => {
                let xc = chars_of(x.as_str());
                if ends_with(a.as_slice(), xc.as_slice()) {
                    take_chars(a.as_slice(), a.len() - xc.len())
                } else {
                    a
                }
            },
            None => a,
        };
        string_of(b.as_slice())
    }

    /// Strip and validate a candidate, returning its usable form.
    pub fn normalize(&self, raw: &str) -> (r: Option<String>)
        ensures
            opt_text(r) == normalized(*self, raw@),
    {
        let s = self.stripped(raw);
        match SemVer::parse(s.as_str()) {
            Err(_) => None,
            Ok(v) => {
                if self.stable_only && chars_of(v.pre()).len() > 0 {
                    None
                } else {
                    Some(s)
                }
            },
        }
    }

    /// Produce the candidate raw version strings encoded by the document.
    pub fn candidates(&self, json: &JsonValue) -> (r: Vec<String>)
        ensures
            texts(r@) == candidates_of(opt_text(self.field), json_view(*json)),
    {
        match json {
            JsonValue::Array(elements) => {
                proof {
                    lemma_array_view(*json);
                }
                let ghost ev = json_view(*json)->Array_0;
                let ghost field = opt_text(self.field);
                let mut out: Vec<String> = Vec::new();
                let mut i: usize = 0;
                while i < elements.len()
                    invariant
                        i <= elements@.len(),
                        ev.len() == elements@.len(),
                        forall|k: int| 0 <= k < elements@.len() ==> #[trigger] ev[k] == json_view(elements@[k]),
                        field == opt_text(self.field),
                        texts(out@) == array_strings(ev.take(i as int), field),
                    decreases elements@.len() - i,
                {
                    proof {
                        let t = ev.take(i + 1);
                        assert(t.drop_last() =~= ev.take(i as int));
                        assert(t.last() == ev[i as int]);
                    }
                    let ghost prev = texts(out@);
                    let value = match &self.field {
                        Some(f) => elements[i].get(f.as_str()),
                        None => Some(&elements[i]),
                    };
                    match value {
                        Some(v) => match v.as_str() {
                            Some(s) => {
                                out.push(s.to_owned());
                                assert(texts(out@) =~= prev.push(s@));
                            },
                            None => {},
                        },
                        None => {},
                    }
                    i = i + 1;
                }
                assert(ev.take(elements@.len() as int) =~= ev);
                out
            },
            JsonValue::Object(m) => {
                proof {
                    lemma_object_keys(*json);
                }
                match &self.field {
                    Some(f) => match json.get(f.as_str()) {
                        Some(inner) => match inner {
                            JsonValue::Object(mm) => {
                                proof {
                                    lemma_object_keys(*inner);
                                }
                                object_keys(mm)
                            },
                            _ => Vec::new(),
                        },
                        None => Vec::new(),
                    },
                    None => object_keys(m),
                }
            },
            _ => Vec::new(),
        }
    }

    /// Extract version strings from a listing body.
    ///
    /// Every candidate has the declared prefix and suffix removed and must
    /// parse as SemVer; `stable_only` drops values with a pre-release
    /// segment. Non-conforming entries are skipped. Fails when the body is
    /// not JSON or yields no usable version.
    pub fn parse(&self, body: &str) -> (r: Result<Vec<String>>)
        ensures
            listing_outcome(*self, body@, r),
    {
        let json = match parse_json(body) {
            Ok(j) => j,
            Err(e) => {
                return Err(Error::Other(self.malformed(e.as_str())));
            },
        };
        let raws = self.candidates(&json);
        let mut out: Vec<String> = Vec::new();
        let mut i: usize = 0;
        while i < raws.len()
            invariant
                i <= raws@.len(),
                texts(out@) == normalized_all(*self, texts(raws@).take(i as int)),
            decreases raws@.len() - i,
        {
            proof {
                let t = texts(raws@).take(i + 1);
                assert(t.drop_last() =~= texts(raws@).take(i as int));
                assert(t.last() == raws@[i as int]@);
            }
            let ghost prev = texts(out@);
            match self.normalize(raws[i].as_str()) {
                Some(s) => {
                    out.push(s);
                    assert(texts(out@) =~= prev.push(s@));
                },
                None => {},
            }
            i = i + 1;
        }
        assert(texts(raws@).take(raws@.len() as int) =~= texts(raws@));
        if out.len() == 0 {
            let mut m = chars_of("versions source ");
            let u = chars_of(self.url.as_str());
            push_all(&mut m, u.as_slice());
            let t = chars_of(" yielded no supported versions");
            push_all(&mut m, t.as_slice());
            return Err(Error::Other(string_of(m.as_slice())));
        }
        Ok(out)
    }

    /// Extract version strings from a raw listing response: the body must
    /// be UTF-8, and its text is read as [`VersionsSource::parse`] reads it.
    pub fn parse_body(&self, body: &[u8]) -> (r: Result<Vec<String>>)
        ensures
            match utf8_strict(body@) {
                Err(e) => r matches Err(Error::Other(m)) && m@ == "versions source "@ + self.url@
                    + ": "@ + e,
                Ok(t) => listing_outcome(*self, t, r),
            },
    {
        match decode_strict(body) {
            Ok(t) => self.parse(t.as_str()),
            Err(e) => {
                let mut m = chars_of("versions source ");
                let u = chars_of(self.url.as_str());
                push_all(&mut m, u.as_slice());
                let c = chars_of(": ");
                push_all(&mut m, c.as_slice());
                let d = chars_of(e.as_str());
                push_all(&mut m, d.as_slice());
                Err(Error::Other(string_of(m.as_slice())))
            },
        }
    }

    fn malformed(&self, detail: &str) -> (r: String)
        ensures
            r@ == "versions source "@ + self.url@ + ": response body is not valid JSON: "@ + detail@,
    {
        let mut m = chars_of("versions source ");
        let u = chars_of(self.url.as_str());
        push_all(&mut m, u.as_slice());
        let t = chars_of(": response body is not valid JSON: ");
        push_all(&mut m, t.as_slice());
        let d = chars_of(detail);
        push_all(&mut m, d.as_slice());
        string_of(m.as_slice())
    }
}

/// A listing that is not stable-only keeps pre-releases: every candidate
/// whose stripped text is a semantic version is kept, as that text.
pub proof fn law_unstable_keeps_every_version(src: VersionsSource, raw: Seq<char>)
    requires
        !src.stable_only,
        semver_parse(stripped_text(src, raw)) is Ok,
    ensures
        normalized(src, raw) == Some(stripped_text(src, raw)),
{
}

/// A stable-only listing keeps exactly the candidates whose stripped text is
/// a semantic version without a pre-release segment.
pub proof fn law_stable_drops_prereleases(src: VersionsSource, raw: Seq<char>)
    requires
        src.stable_only,
    ensures
        normalized(src, raw) is Some <==> (semver_parse(stripped_text(src, raw)) matches Ok(v)
            && v.3.len() == 0),
{
}

/// A listing that is not stable-only, of candidates that all strip to
/// semantic versions, yields every candidate's stripped text, in order.
pub proof fn law_unstable_keeps_all(src: VersionsSource, raws: Seq<Seq<char>>)
    requires
        !src.stable_only,
        forall|i: int| 0 <= i < raws.len() ==> semver_parse(stripped_text(src, #[trigger] raws[i])) is Ok,
    ensures
        normalized_all(src, raws) == raws.map_values(|r: Seq<char>| stripped_text(src, r)),
    decreases raws.len(),
{
    if raws.len() > 0 {
        let d = raws.drop_last();
        assert forall|i: int| 0 <= i < d.len() implies semver_parse(stripped_text(src, #[trigger] d[i])) is Ok by {
            assert(d[i] == raws[i]);
        }
        law_unstable_keeps_all(src, d);
        assert(semver_parse(stripped_text(src, raws[raws.len() - 1])) is Ok);
        assert(raws.map_values(|r: Seq<char>| stripped_text(src, r)) =~= d.map_values(
            |r: Seq<char>| stripped_text(src, r),
        ).push(stripped_text(src, raws.last())));
    } else {
        assert(raws.map_values(|r: Seq<char>| stripped_text(src, r)) =~= Seq::<Seq<char>>::empty());
    }
}

} // verus!
