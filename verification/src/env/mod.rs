//! Environment configuration layer.
//!
//! Decoupled from execution: `apply_deltas` produces **pure-value** merges
//! (what is wanted), and the store handles the write-back. Names and
//! path-list entries follow the rules of a [`Platform`]: on POSIX entries are
//! separated by `:` and compared byte-exactly after trimming, and names are
//! byte-exact; on Windows entries are separated by `;`, and entries and names
//! compare without case. The engine merges path lists by the rules of the
//! store it writes to ([`EnvStore::platform`]).

pub mod laws;
pub mod store;

use vstd::prelude::*;

use crate::env::laws::{
    apply_all, law_restore_undoes_apply, lookup, restore_lifo, restore_one, snapshots_of,
};
use crate::error::{Error, Result};
use crate::fs_path::Platform;
use crate::text::{
    lower_text, lowercase,
    blank_chars, chars_eq, chars_of, cviews, is_blank, join_chars, join_with, push_all,
    split_chars, split_on, str_eq, string_of, trim, trim_chars,
};

verus! {

/// An environment variable delta operation.
#[derive(Clone, Copy, Debug, PartialEq, Eq, Structural)]
pub enum EnvOp {
    /// Set directly to the given value.
    Assign,
    /// Insert in front of the current value (for prepending to PATH).
    Prepend,
    /// Append after the current value.
    Append,
}

/// The POSIX path-list separator.
pub const PATH_SEP: &'static str = ":";

/// The path-list separator character of a platform: `;` on Windows, `:` on
/// POSIX.
pub open spec fn sep_of(p: Platform) -> char {
    match p {
        Platform::Posix => ':',
        Platform::Windows => ';',
    }
}

/// The POSIX path-list separator character.
pub open spec fn sep() -> char {
    sep_of(Platform::Posix)
}

/// The separator character of `platform`.
fn sep_char(platform: Platform) -> (r: char)
    ensures
        r == sep_of(platform),
{
    match platform {
        Platform::Posix => ':',
        Platform::Windows => ';',
    }
}

/// The form in which names compare on `p`: verbatim on POSIX, lowercased on
/// Windows.
pub open spec fn name_key(p: Platform, n: Seq<char>) -> Seq<char> {
    match p {
        Platform::Posix => n,
        Platform::Windows => lowercase(n),
    }
}

/// A character with ASCII upper case folded to lower case, as a code point.
pub open spec fn ascii_fold(c: char) -> int {
    if 'A' <= c <= 'Z' {
        c as int + 32
    } else {
        c as int
    }
}

/// Whether two texts are equal ignoring ASCII case.
pub open spec fn eq_ascii_fold(a: Seq<char>, b: Seq<char>) -> bool {
    a.len() == b.len() && forall|i: int| 0 <= i < a.len() ==> ascii_fold(#[trigger] a[i]) == ascii_fold(b[i])
}

/// Whether `n` names the PATH list variable on `p`: byte-exact on POSIX,
/// ignoring ASCII case on Windows.
pub open spec fn is_path_name(p: Platform, n: Seq<char>) -> bool {
    match p {
        Platform::Posix => n == "PATH"@,
        Platform::Windows => eq_ascii_fold(n, "PATH"@),
    }
}

fn fold_code(c: char) -> (r: u32)
    ensures
        r == ascii_fold(c),
{
    let x = c as u32;
    if 65 <= x && x <= 90 {
        x + 32
    } else {
        x
    }
}

fn eq_ignore_ascii_case(a: &str, b: &str) -> (r: bool)
    ensures
        r == eq_ascii_fold(a@, b@),
{
    let x = chars_of(a);
    let y = chars_of(b);
    if x.len() != y.len() {
        return false;
    }
    let mut i: usize = 0;
    while i < x.len()
        invariant
            i <= x@.len(),
            x@.len() == y@.len(),
            x@ == a@,
            y@ == b@,
            forall|k: int| 0 <= k < i ==> ascii_fold(#[trigger] x@[k]) == ascii_fold(y@[k]),
        decreases x@.len() - i,
    {
        if fold_code(x[i]) != fold_code(y[i]) {
            return false;
        }
        i = i + 1;
    }
    true
}

/// An environment variable name. Which names denote the same variable
/// depends on the platform: see [`EnvVar::same_on`].
#[derive(Clone, Debug, PartialEq, Eq, Hash)]
pub struct EnvVar(String);

impl View for EnvVar {
    type V = Seq<char>;

    closed spec fn view(&self) -> Seq<char> {
        self.0@
    }
}

impl EnvVar {
    /// A variable name from its text.
    pub fn new(name: &str) -> (r: EnvVar)
        ensures
            r@ == name@,
    {
        EnvVar(name.to_owned())
    }

    /// The verbatim name, as written by the caller.
    pub fn as_str(&self) -> (r: &str)
        ensures
            r@ == self@,
    {
        self.0.as_str()
    }

    /// A copy of this name.
    pub fn duplicate(&self) -> (r: EnvVar)
        ensures
            r@ == self@,
    {
        EnvVar(self.0.clone())
    }

    /// Whether two names denote the same variable (byte-exact on POSIX).
    pub fn same(&self, other: &EnvVar) -> (r: bool)
        ensures
            r == (self@ == other@),
    {
        str_eq(self.0.as_str(), other.0.as_str())
    }

    /// Whether this is the PATH list variable (byte-exact, as on POSIX).
    pub fn is_path(&self) -> (r: bool)
        ensures
            r == (self@ == "PATH"@),
    {
        str_eq(self.0.as_str(), "PATH")
    }

    /// Whether two names denote the same variable on `platform`: byte-exact
    /// on POSIX, equal once lowercased on Windows.
    pub fn same_on(&self, other: &EnvVar, platform: Platform) -> (r: bool)
        ensures
            r == (name_key(platform, self@) == name_key(platform, other@)),
    {
        match platform {
            Platform::Posix => str_eq(self.0.as_str(), other.0.as_str()),
            Platform::Windows => {
                let a = lower_text(self.0.as_str());
                let b = lower_text(other.0.as_str());
                str_eq(a.as_str(), b.as_str())
            },
        }
    }

    /// Whether this is the PATH list variable on `platform`: byte-exact on
    /// POSIX, ignoring ASCII case on Windows.
    pub fn is_path_on(&self, platform: Platform) -> (r: bool)
        ensures
            r == is_path_name(platform, self@),
    {
        match platform {
            Platform::Posix => str_eq(self.0.as_str(), "PATH"),
            Platform::Windows => eq_ignore_ascii_case(self.0.as_str(), "PATH"),
        }
    }
}

impl From<&str> for EnvVar {
    fn from(value: &str) -> EnvVar {
        EnvVar(value.to_owned())
    }
}

impl From<String> for EnvVar {
    fn from(value: String) -> EnvVar {
        EnvVar(value)
    }
}

impl vstd::std_specs::convert::FromSpecImpl<&str> for EnvVar {
    open spec fn obeys_from_spec() -> bool {
        false
    }

    open spec fn from_spec(v: &str) -> EnvVar {
        choose|e: EnvVar| e@ == v@
    }
}

impl vstd::std_specs::convert::FromSpecImpl<String> for EnvVar {
    open spec fn obeys_from_spec() -> bool {
        false
    }

    open spec fn from_spec(v: String) -> EnvVar {
        choose|e: EnvVar| e@ == v@
    }
}

/// A delta description for one variable (a pure value).
#[derive(Clone, Debug, PartialEq, Eq)]
pub struct EnvDelta {
    /// Variable name.
    pub name: EnvVar,
    /// The value to join in (absolute path or full value).
    pub value: String,
    /// How to merge with the existing value.
    pub op: EnvOp,
}

impl EnvDelta {
    /// A copy of this delta.
    pub fn duplicate(&self) -> (r: EnvDelta)
        ensures
            r.name@ == self.name@,
            r.value@ == self.value@,
            r.op == self.op,
    {
        EnvDelta { name: self.name.duplicate(), value: self.value.clone(), op: self.op }
    }
}

/// Read/write backend for environment variables.
///
/// A store is seen as a map from names to values. Every implementation
/// promises that a read that succeeds returns the value the map holds, and
/// that a write or removal that succeeds changes exactly that one entry; a
/// failing write or removal may leave that entry in any state but touches no
/// other. A [`EnvStore::dependable`]
/// store fails no call.
pub trait EnvStore {
    /// The variables the store holds, by name.
    ///
    /// Code generic over the store never sees this default body; it lets a
    /// store written outside the verified library, which has no means to
    /// describe its contents, implement the trait.
    closed spec fn vars(&self) -> Map<Seq<char>, Seq<char>> {
        Map::empty()
    }

    /// Whether the store carries out every read, write and removal.
    ///
    /// Code generic over the store never sees this default body; a store
    /// written outside the verified library promises nothing by it, since
    /// the registry or profile files behind it can refuse a change.
    closed spec fn dependable(&self) -> bool {
        false
    }

    /// The platform whose rules the stored values follow.
    ///
    /// Code generic over the store never sees this default body; it learns
    /// the platform from [`EnvStore::platform`].
    closed spec fn platform_of(&self) -> Platform {
        Platform::Posix
    }

    /// The platform whose rules the stored values follow: the separator and
    /// entry identity of path lists written here.
    fn platform(&self) -> (r: Platform)
        ensures
            r == self.platform_of(),
    ;

    /// Read the current value; `None` when it does not exist.
    fn read(&self, name: &EnvVar) -> (r: Result<Option<String>>)
        ensures
            r matches Ok(v) ==> opt_view(v) == lookup(self.vars(), name@),
            self.dependable() ==> r is Ok,
    ;

    /// Write a new value.
    fn write(&mut self, name: &EnvVar, value: &str) -> (r: Result<()>)
        ensures
            r is Ok ==> final(self).vars() == old(self).vars().insert(name@, value@),
            r is Err ==> final(self).vars().remove(name@) == old(self).vars().remove(name@),
            old(self).dependable() ==> r is Ok && final(self).dependable(),
            final(self).platform_of() == old(self).platform_of(),
    ;

    /// Remove the variable.
    fn remove(&mut self, name: &EnvVar) -> (r: Result<()>)
        ensures
            r is Ok ==> final(self).vars() == old(self).vars().remove(name@),
            r is Err ==> final(self).vars().remove(name@) == old(self).vars().remove(name@),
            old(self).dependable() ==> r is Ok && final(self).dependable(),
            final(self).platform_of() == old(self).platform_of(),
    ;
}

// ---------------------------------------------------------------------------
// Path lists
// ---------------------------------------------------------------------------

/// How a path-list entry compares on `p`: trimmed, and lowercased on
/// Windows.
pub open spec fn canon_on(p: Platform, s: Seq<char>) -> Seq<char> {
    match p {
        Platform::Posix => trim(s),
        Platform::Windows => lowercase(trim(s)),
    }
}

/// The entries of a path list on `p`.
pub open spec fn segments_on(p: Platform, l: Seq<char>) -> Seq<Seq<char>> {
    split_on(l, sep_of(p))
}

/// The entries of a POSIX path list.
pub open spec fn segments(l: Seq<char>) -> Seq<Seq<char>> {
    segments_on(Platform::Posix, l)
}

/// Whether `entry` already appears in the list `l` on `p`, entries compared
/// by [`canon_on`].
pub open spec fn list_contains_on(p: Platform, l: Seq<char>, entry: Seq<char>) -> bool {
    exists|i: int|
        0 <= i < segments_on(p, l).len() && canon_on(p, #[trigger] segments_on(p, l)[i]) == canon_on(
            p,
            entry,
        )
}

/// Whether `entry` already appears (after trimming) in the POSIX list `l`.
pub open spec fn list_contains(l: Seq<char>, entry: Seq<char>) -> bool {
    list_contains_on(Platform::Posix, l, entry)
}

/// The list on `p` with `entry` added at the front or back unless already
/// present.
pub open spec fn offer_text_on(p: Platform, l: Seq<char>, entry: Seq<char>, front: bool) -> Seq<char> {
    if list_contains_on(p, l, entry) {
        l
    } else if is_blank(l) {
        entry
    } else if front {
        entry + seq![sep_of(p)] + l
    } else {
        l + seq![sep_of(p)] + entry
    }
}

/// The POSIX list with `entry` added at the front or back unless already
/// present.
pub open spec fn offer_text(l: Seq<char>, entry: Seq<char>, front: bool) -> Seq<char> {
    offer_text_on(Platform::Posix, l, entry, front)
}

/// The trimmed, non-empty pieces whose form on `p` differs from `want`, in
/// order.
pub open spec fn kept_on(p: Platform, parts: Seq<Seq<char>>, want: Seq<char>) -> Seq<Seq<char>>
    decreases parts.len(),
{
    if parts.len() == 0 {
        Seq::empty()
    } else {
        let k = kept_on(p, parts.drop_last(), want);
        let t = trim(parts.last());
        if t.len() > 0 && canon_on(p, parts.last()) != want {
            k.push(t)
        } else {
            k
        }
    }
}

/// The trimmed, non-empty pieces other than `want`, in order.
pub open spec fn kept(parts: Seq<Seq<char>>, want: Seq<char>) -> Seq<Seq<char>> {
    kept_on(Platform::Posix, parts, want)
}

/// The list on `p` with `entry` removed; `None` when nothing would remain.
pub open spec fn remove_text_on(p: Platform, l: Seq<char>, entry: Seq<char>) -> Option<Seq<char>> {
    let k = kept_on(p, segments_on(p, l), canon_on(p, entry));
    if k.len() == 0 {
        None
    } else {
        Some(join_with(k, seq![sep_of(p)]))
    }
}

/// The POSIX list with `entry` removed; `None` when nothing would remain.
pub open spec fn remove_text(l: Seq<char>, entry: Seq<char>) -> Option<Seq<char>> {
    remove_text_on(Platform::Posix, l, entry)
}

/// The non-blank pieces, in order.
pub open spec fn non_blank(parts: Seq<Seq<char>>) -> Seq<Seq<char>>
    decreases parts.len(),
{
    if parts.len() == 0 {
        Seq::empty()
    } else if is_blank(parts.last()) {
        non_blank(parts.drop_last())
    } else {
        non_blank(parts.drop_last()).push(parts.last())
    }
}

/// The views of a sequence of string slices.
pub open spec fn str_views(v: Seq<&str>) -> Seq<Seq<char>> {
    v.map_values(|x: &str| x@)
}

/// The form in which a path-list entry compares on `platform`.
fn canon_chars(s: &[char], platform: Platform) -> (r: Vec<char>)
    ensures
        r@ == canon_on(platform, s@),
{
    let t = trim_chars(s);
    match platform {
        Platform::Posix => t,
        Platform::Windows => {
            let text = string_of(t.as_slice());
            let lower = lower_text(text.as_str());
            chars_of(lower.as_str())
        },
    }
}

/// A PATH-like list of entries joined by its platform's separator (`;` on
/// Windows, `:` on POSIX).
///
/// Entry identity is case-insensitive on Windows (where `C:\Foo` and
/// `c:\foo` name the same path), so a case-only variant is treated as the same
/// entry and never duplicated or double-removed.
#[derive(Clone, Debug)]
pub struct PathValue {
    string: String,
    platform: Platform,
}

impl View for PathValue {
    type V = Seq<char>;

    closed spec fn view(&self) -> Seq<char> {
        self.string@
    }
}

impl PathValue {
    /// The platform whose rules the list follows.
    pub closed spec fn platform_spec(&self) -> Platform {
        self.platform
    }

    /// Wrap a stored raw value for list queries under the POSIX rules.
    pub fn new(value: String) -> (r: PathValue)
        ensures
            r@ == value@,
            r.platform_spec() == Platform::Posix,
    {
        PathValue { string: value, platform: Platform::Posix }
    }

    /// Wrap a stored raw value for list queries under the rules of
    /// `platform`.
    pub fn on(value: String, platform: Platform) -> (r: PathValue)
        ensures
            r@ == value@,
            r.platform_spec() == platform,
    {
        PathValue { string: value, platform }
    }

    /// The POSIX separator used between entries.
    pub fn separator() -> (r: &'static str)
        ensures
            r@ == PATH_SEP@,
    {
        PATH_SEP
    }

    /// The separator used between entries on `platform`.
    pub fn separator_on(platform: Platform) -> (r: &'static str)
        ensures
            r@ == seq![sep_of(platform)],
    {
        match platform {
            Platform::Posix => {
                proof {
                    reveal_strlit(":");
                }
                ":"
            },
            Platform::Windows => {
                proof {
                    reveal_strlit(";");
                }
                ";"
            },
        }
    }

    /// A joined POSIX value from the given entries; blank entries are
    /// skipped.
    pub fn join(entries: &[&str]) -> (r: String)
        ensures
            r@ == join_with(non_blank(str_views(entries@)), seq![sep()]),
    {
        PathValue::join_on(entries, Platform::Posix)
    }

    /// A value for `platform` joined from the given entries; blank entries
    /// are skipped.
    pub fn join_on(entries: &[&str], platform: Platform) -> (r: String)
        ensures
            r@ == join_with(non_blank(str_views(entries@)), seq![sep_of(platform)]),
    {
        let mut parts: Vec<Vec<char>> = Vec::new();
        let mut i: usize = 0;
        while i < entries.len()
            invariant
                i <= entries@.len(),
                cviews(parts@) == non_blank(str_views(entries@).take(i as int)),
            decreases entries@.len() - i,
        {
            let cs = chars_of(entries[i]);
            let ghost before = parts@;
            proof {
                let t = str_views(entries@).take(i + 1);
                assert(t.drop_last() =~= str_views(entries@).take(i as int));
                assert(t.last() == entries@[i as int]@);
            }
            if !blank_chars(cs.as_slice()) {
                parts.push(cs);
                assert(cviews(parts@) =~= cviews(before).push(entries@[i as int]@));
            }
            i = i + 1;
        }
        assert(str_views(entries@).take(entries@.len() as int) =~= str_views(entries@));
        let mut sep_chars: Vec<char> = Vec::new();
        sep_chars.push(sep_char(platform));
        assert(sep_chars@ =~= seq![sep_of(platform)]);
        let r = join_chars(&parts, sep_chars.as_slice());
        string_of(r.as_slice())
    }

    /// Whether `entry` appears in this list (entries compared by the
    /// list's platform rules).
    pub fn contains(&self, entry: &str) -> (r: bool)
        ensures
            r == list_contains_on(self.platform_spec(), self@, entry@),
    {
        let e = chars_of(entry);
        self.contains_entry(e.as_slice())
    }

    /// Whether `entry` already appears in this list.
    fn contains_entry(&self, entry: &[char]) -> (r: bool)
        ensures
            r == list_contains_on(self.platform_spec(), self@, entry@),
    {
        let p = self.platform;
        let want = canon_chars(entry, p);
        let cs = chars_of(self.string.as_str());
        let segs = split_chars(cs.as_slice(), sep_char(p));
        let mut i: usize = 0;
        while i < segs.len()
            invariant
                i <= segs@.len(),
                p == self.platform_spec(),
                cviews(segs@) == segments_on(p, self@),
                want@ == canon_on(p, entry@),
                forall|k: int|
                    0 <= k < i ==> canon_on(p, #[trigger] segments_on(p, self@)[k]) != canon_on(
                        p,
                        entry@,
                    ),
            decreases segs@.len() - i,
        {
            let t = canon_chars(segs[i].as_slice(), p);
            assert(segs@[i as int]@ == segments_on(p, self@)[i as int]);
            if chars_eq(t.as_slice(), want.as_slice()) {
                return true;
            }
            i = i + 1;
        }
        false
    }

    /// Add `entry` at the front or back unless it is already present.
    fn offer(&self, entry: &str, front: bool) -> (r: String)
        ensures
            r@ == offer_text_on(self.platform_spec(), self@, entry@, front),
    {
        let e = chars_of(entry);
        if self.contains_entry(e.as_slice()) {
            return self.string.clone();
        }
        let cs = chars_of(self.string.as_str());
        if blank_chars(cs.as_slice()) {
            return entry.to_owned();
        }
        let sc = sep_char(self.platform);
        let mut out: Vec<char> = Vec::new();
        if front {
            push_all(&mut out, e.as_slice());
            out.push(sc);
            push_all(&mut out, cs.as_slice());
        } else {
            push_all(&mut out, cs.as_slice());
            out.push(sc);
            push_all(&mut out, e.as_slice());
        }
        string_of(out.as_slice())
    }

    /// The list with `entry` prepended, de-duplicated against existing entries.
    pub fn prepend(&self, entry: &str) -> (r: String)
        ensures
            r@ == offer_text_on(self.platform_spec(), self@, entry@, true),
    {
        self.offer(entry, true)
    }

    /// The list with `entry` appended, de-duplicated against existing entries.
    pub fn append(&self, entry: &str) -> (r: String)
        ensures
            r@ == offer_text_on(self.platform_spec(), self@, entry@, false),
    {
        self.offer(entry, false)
    }

    /// The list with `entry` removed on its platform's identity rules;
    /// `None` when removing it would leave the list empty (the variable should
    /// vanish).
    pub fn remove(&self, entry: &str) -> (r: Option<String>)
        ensures
            r matches Some(s) ==> remove_text_on(self.platform_spec(), self@, entry@) == Some(s@),
            r is None ==> remove_text_on(self.platform_spec(), self@, entry@) is None,
    {
        let p = self.platform;
        let e = chars_of(entry);
        let want = canon_chars(e.as_slice(), p);
        let cs = chars_of(self.string.as_str());
        let segs = split_chars(cs.as_slice(), sep_char(p));
        let mut out: Vec<Vec<char>> = Vec::new();
        let mut i: usize = 0;
        while i < segs.len()
            invariant
                i <= segs@.len(),
                p == self.platform_spec(),
                cviews(segs@) == segments_on(p, self@),
                want@ == canon_on(p, entry@),
                cviews(out@) == kept_on(p, segments_on(p, self@).take(i as int), want@),
            decreases segs@.len() - i,
        {
            let t = trim_chars(segs[i].as_slice());
            let c = canon_chars(segs[i].as_slice(), p);
            let ghost before = out@;
            proof {
                let q = segments_on(p, self@).take(i + 1);
                assert(q.drop_last() =~= segments_on(p, self@).take(i as int));
                assert(q.last() == segs@[i as int]@);
            }
            if t.len() > 0 && !chars_eq(c.as_slice(), want.as_slice()) {
                out.push(t);
                assert(cviews(out@) =~= cviews(before).push(t@));
            }
            i = i + 1;
        }
        assert(segments_on(p, self@).take(segs@.len() as int) =~= segments_on(p, self@));
        if out.len() == 0 {
            None
        } else {
            let mut sep_chars: Vec<char> = Vec::new();
            sep_chars.push(sep_char(p));
            let j = join_chars(&out, sep_chars.as_slice());
            assert(sep_chars@ =~= seq![sep_of(p)]);
            Some(string_of(j.as_slice()))
        }
    }
}

// ---------------------------------------------------------------------------
// Deltas
// ---------------------------------------------------------------------------

/// The value a delta produces against the current value, path lists
/// following the rules of `pl`.
pub open spec fn merge_text(pl: Platform, current: Option<Seq<char>>, op: EnvOp, value: Seq<char>) -> Seq<
    char,
> {
    let l = match current {
        Some(c) => c,
        None => Seq::empty(),
    };
    match op {
        EnvOp::Assign => value,
        EnvOp::Prepend => offer_text_on(pl, l, value, true),
        EnvOp::Append => offer_text_on(pl, l, value, false),
    }
}

/// The view of an optional string.
pub open spec fn opt_view(o: Option<String>) -> Option<Seq<char>> {
    match o {
        Some(s) => Some(s@),
        None => None,
    }
}

/// The view of an optional string slice.
pub open spec fn opt_str_view(o: Option<&str>) -> Option<Seq<char>> {
    match o {
        Some(s) => Some(s@),
        None => None,
    }
}

/// Merge one delta into the current value (POSIX path lists).
pub fn merge(current: Option<&str>, delta: &EnvDelta) -> (r: String)
    ensures
        r@ == merge_text(Platform::Posix, opt_str_view(current), delta.op, delta.value@),
{
    merge_on(current, delta, Platform::Posix)
}

/// Merge one delta into the current value, path lists following the rules
/// of `platform`.
pub fn merge_on(current: Option<&str>, delta: &EnvDelta, platform: Platform) -> (r: String)
    ensures
        r@ == merge_text(platform, opt_str_view(current), delta.op, delta.value@),
{
    let base = match current {
        Some(c) => c.to_owned(),
        None => String::new(),
    };
    let list = PathValue::on(base, platform);
    match delta.op {
        EnvOp::Assign => delta.value.clone(),
        EnvOp::Prepend => list.prepend(delta.value.as_str()),
        EnvOp::Append => list.append(delta.value.as_str()),
    }
}

/// The `(name, value)` view of captured snapshots.
pub open spec fn snap_views(v: Seq<(EnvVar, Option<String>)>) -> Seq<(Seq<char>, Option<Seq<char>>)> {
    v.map_values(|p: (EnvVar, Option<String>)| (p.0@, opt_view(p.1)))
}

/// Write captured snapshots back, newest first: a variable that had a value
/// gets it again, one that did not is removed. The first failing call ends
/// the replay.
fn restore_snapshots<E: EnvStore>(snaps: &Vec<(EnvVar, Option<String>)>, store: &mut E) -> (r:
    Result<()>)
    ensures
        r is Ok ==> final(store).vars() == restore_lifo(old(store).vars(), snap_views(snaps@)),
        final(store).platform_of() == old(store).platform_of(),
{
    let ghost m = store.vars();
    let ghost views = snap_views(snaps@);
    let mut i: usize = snaps.len();
    proof {
        assert(views.take(snaps@.len() as int) =~= views);
    }
    while i > 0
        invariant
            i <= snaps@.len(),
            views == snap_views(snaps@),
            store.platform_of() == old(store).platform_of(),
            restore_lifo(store.vars(), views.take(i as int)) == restore_lifo(m, views),
        decreases i,
    {
        i = i - 1;
        let ghost before = store.vars();
        match &snaps[i].1 {
            Some(v) => store.write(&snaps[i].0, v.as_str())?,
            None => store.remove(&snaps[i].0)?,
        }
        proof {
            let t = views.take(i + 1);
            assert(t.drop_last() =~= views.take(i as int));
            assert(t.last() == views[i as int]);
        }
    }
    proof {
        assert(views.take(0) =~= Seq::<(Seq<char>, Option<Seq<char>>)>::empty());
    }
    Ok(())
}

/// Undo the writes of a failed run of [`apply_deltas`] and report the
/// failure `e`: `e` itself when every snapshot was written back, otherwise a
/// rollback error naming both failures.
fn undo_partial<E: EnvStore>(snaps: &Vec<(EnvVar, Option<String>)>, store: &mut E, e: Error) -> (r:
    Error)
    ensures
        (r == e && final(store).vars() == restore_lifo(old(store).vars(), snap_views(snaps@)))
            || r is Rollback,
        final(store).platform_of() == old(store).platform_of(),
{
    match restore_snapshots(snaps, store) {
        Ok(()) => e,
        Err(f) => {
            let mut m = chars_of(e.message().as_str());
            let mid = chars_of("; additionally rollback failed: ");
            push_all(&mut m, mid.as_slice());
            let tail = chars_of(f.message().as_str());
            push_all(&mut m, tail.as_slice());
            Error::Rollback(string_of(m.as_slice()))
        },
    }
}

/// Restoring a snapshot of variable `n` does not depend on what `n` held.
proof fn lemma_restore_one_over(
    v: Map<Seq<char>, Seq<char>>,
    w: Map<Seq<char>, Seq<char>>,
    s: (Seq<char>, Option<Seq<char>>),
)
    requires
        v.remove(s.0) == w.remove(s.0),
        s.1 == lookup(w, s.0),
    ensures
        restore_one(v, s) == w,
{
    assert forall|k: Seq<char>| #[trigger] restore_one(v, s).contains_key(k) <==> w.contains_key(k) by {
        if k != s.0 {
            assert(v.remove(s.0).contains_key(k) == v.contains_key(k));
            assert(w.remove(s.0).contains_key(k) == w.contains_key(k));
        }
    }
    assert forall|k: Seq<char>| restore_one(v, s).contains_key(k) implies #[trigger] restore_one(v, s)[k]
        == w[k] by {
        if k != s.0 {
            assert(v.remove(s.0)[k] == v[k]);
            assert(w.remove(s.0)[k] == w[k]);
        }
    }
    assert(restore_one(v, s) =~= w);
}

/// Apply a group of deltas to the store, snapshotting old values and returning
/// per-variable snapshots in apply order.
///
/// Each variable is read, merged with [`merge_on`] by the store's platform,
/// and written back; the value read is the snapshot. When every read and
/// write succeeds the store holds the deltas merged in order and the
/// snapshots are the values each delta found; a dependable store fails
/// none. The first failing call ends the run, and the variables already
/// written are written back before the error is returned: the variables are
/// as they were unless that write-back fails too, which the error then
/// reports as a rollback failure.
pub fn apply_deltas<E: EnvStore>(deltas: &[EnvDelta], store: &mut E) -> (r: Result<
    Vec<(EnvVar, Option<String>)>,
>)
    ensures
        r matches Ok(snaps) ==> snaps@.len() == deltas@.len() && (forall|i: int|
            0 <= i < deltas@.len() ==> (#[trigger] snaps@[i]).0@ == deltas@[i].name@)
            && snap_views(snaps@) == snapshots_of(old(store).platform_of(), old(store).vars(), deltas@)
            && final(store).vars() == apply_all(old(store).platform_of(), old(store).vars(), deltas@),
        r matches Err(e) && !(e is Rollback) ==> final(store).vars() == old(store).vars(),
        old(store).dependable() ==> r is Ok && final(store).dependable(),
        final(store).platform_of() == old(store).platform_of(),
{
    let pl = store.platform();
    let ghost m0 = store.vars();
    let mut snapshots: Vec<(EnvVar, Option<String>)> = Vec::new();
    let mut i: usize = 0;
    proof {
        assert(deltas@.take(0) =~= Seq::<EnvDelta>::empty());
        assert(snap_views(snapshots@) =~= Seq::<(Seq<char>, Option<Seq<char>>)>::empty());
    }
    while i < deltas.len()
        invariant
            i <= deltas@.len(),
            snapshots@.len() == i,
            forall|k: int| 0 <= k < i ==> (#[trigger] snapshots@[k]).0@ == deltas@[k].name@,
            m0 == old(store).vars(),
            old(store).dependable() ==> store.dependable(),
            pl == old(store).platform_of(),
            store.platform_of() == pl,
            store.vars() == apply_all(pl, m0, deltas@.take(i as int)),
            snap_views(snapshots@) == snapshots_of(pl, m0, deltas@.take(i as int)),
        decreases deltas@.len() - i,
    {
        let delta = &deltas[i];
        let ghost before = store.vars();
        let ghost prev = snapshots@;
        proof {
            let t = deltas@.take(i + 1);
            assert(t.drop_last() =~= deltas@.take(i as int));
            assert(t.last() == deltas@[i as int]);
            law_restore_undoes_apply(pl, m0, deltas@.take(i as int));
        }
        let old = match store.read(&delta.name) {
            Ok(v) => v,
            Err(e) => {
                return Err(undo_partial(&snapshots, store, e));
            },
        };
        let next = match &old {
            Some(v) => merge_on(Some(v.as_str()), delta, pl),
            None => merge_on(None, delta, pl),
        };
        let written = store.write(&delta.name, next.as_str());
        let snap = (delta.name.duplicate(), old);
        snapshots.push(snap);
        proof {
            assert(snapshots@.drop_last() =~= prev);
            assert(snap_views(snapshots@) =~= snap_views(prev).push((snap.0@, opt_view(snap.1))));
        }
        match written {
            Ok(()) => {},
            Err(e) => {
                proof {
                    let s = (snap.0@, opt_view(snap.1));
                    lemma_restore_one_over(store.vars(), before, s);
                    assert(snap_views(snapshots@).drop_last() =~= snap_views(prev));
                    assert(snap_views(snapshots@).last() == s);
                }
                return Err(undo_partial(&snapshots, store, e));
            },
        }
        i = i + 1;
    }
    proof {
        assert(deltas@.take(i as int) =~= deltas@);
    }
    Ok(snapshots)
}

/// What a variable should become when one applied delta is reversed against the
/// current value; `None` means it should be removed. Path lists follow the
/// rules of `pl`.
///
/// `Set` restores the pre-apply snapshot; `Prepend`/`Append` drop only the
/// applied segment from the current value.
pub open spec fn reverse_text(
    pl: Platform,
    op: EnvOp,
    value: Seq<char>,
    old: Option<Seq<char>>,
    current: Option<Seq<char>>,
) -> Option<Seq<char>> {
    match op {
        EnvOp::Assign => old,
        _ => match current {
            None => None,
            Some(c) => remove_text_on(pl, c, value),
        },
    }
}

/// Reverse an applied delta against the current value (POSIX path lists), so
/// uninstall undoes exactly what one install added.
pub fn reverse_value(applied: &EnvDelta, old: Option<&str>, current: Option<&str>) -> (r: Option<
    String,
>)
    ensures
        opt_view(r) == reverse_text(
            Platform::Posix,
            applied.op,
            applied.value@,
            opt_str_view(old),
            opt_str_view(current),
        ),
{
    reverse_value_on(applied, old, current, Platform::Posix)
}

/// Reverse an applied delta against the current value, path lists following
/// the rules of `platform`.
pub fn reverse_value_on(
    applied: &EnvDelta,
    old: Option<&str>,
    current: Option<&str>,
    platform: Platform,
) -> (r: Option<String>)
    ensures
        opt_view(r) == reverse_text(
            platform,
            applied.op,
            applied.value@,
            opt_str_view(old),
            opt_str_view(current),
        ),
{
    match applied.op {
        EnvOp::Assign => match old {
            Some(o) => Some(o.to_owned()),
            None => None,
        },
        EnvOp::Prepend | EnvOp::Append => match current {
            None => None,
            Some(c) => PathValue::on(c.to_owned(), platform).remove(applied.value.as_str()),
        },
    }
}

/// The variables after one applied delta is reversed: the variable becomes
/// what [`reverse_text`] decides, or is removed.
pub open spec fn undo_map(
    pl: Platform,
    m: Map<Seq<char>, Seq<char>>,
    applied: EnvDelta,
    old: Option<Seq<char>>,
) -> Map<Seq<char>, Seq<char>> {
    match reverse_text(pl, applied.op, applied.value@, old, lookup(m, applied.name@)) {
        Some(v) => m.insert(applied.name@, v),
        None => m.remove(applied.name@),
    }
}

/// Write the reverse of one applied delta to `store` (used by uninstall): the
/// current value is read and [`reverse_value_on`], by the store's platform,
/// decides between a write and a removal.
pub fn undo_delta<E: EnvStore>(applied: &EnvDelta, prior: Option<&str>, store: &mut E) -> (r: Result<
    (),
>)
    ensures
        r is Ok ==> final(store).vars() == undo_map(
            old(store).platform_of(),
            old(store).vars(),
            *applied,
            opt_str_view(prior),
        ),
        old(store).dependable() ==> r is Ok && final(store).dependable(),
        final(store).platform_of() == old(store).platform_of(),
{
    let pl = store.platform();
    let current = store.read(&applied.name)?;
    let next = match &current {
        Some(c) => reverse_value_on(applied, prior, Some(c.as_str()), pl),
        None => reverse_value_on(applied, prior, None, pl),
    };
    match next {
        Some(v) => store.write(&applied.name, v.as_str()),
        None => store.remove(&applied.name),
    }
}

/// The PATH value a store holds, empty when unset.
pub open spec fn path_of(m: Map<Seq<char>, Seq<char>>) -> Seq<char> {
    match lookup(m, "PATH"@) {
        Some(v) => v,
        None => Seq::empty(),
    }
}

/// Put `dir` at the front of PATH unless it is already listed, by the list
/// rules of the store's platform; whether PATH was written is returned.
pub fn add_to_path<E: EnvStore>(dir: &str, store: &mut E) -> (r: Result<bool>)
    ensures
        r matches Ok(written) ==> (written == !list_contains_on(
            old(store).platform_of(),
            path_of(old(store).vars()),
            dir@,
        ) && final(store).vars() == (if written {
            old(store).vars().insert(
                "PATH"@,
                offer_text_on(old(store).platform_of(), path_of(old(store).vars()), dir@, true),
            )
        } else {
            old(store).vars()
        })),
        old(store).dependable() ==> r is Ok && final(store).dependable(),
        final(store).platform_of() == old(store).platform_of(),
{
    let platform = store.platform();
    let path = EnvVar::new("PATH");
    let current = store.read(&path)?;
    let list = match current {
        Some(c) => PathValue::on(c, platform),
        None => PathValue::on(String::new(), platform),
    };
    if list.contains(dir) {
        return Ok(false);
    }
    let next = list.prepend(dir);
    store.write(&path, next.as_str())?;
    Ok(true)
}

// ---------------------------------------------------------------------------
// In-memory store
// ---------------------------------------------------------------------------

/// A purely in-memory env backend, used to test that compensation really
/// restores the old values.
#[derive(Debug)]
pub struct MemEnvStore {
    values: Vec<(EnvVar, String)>,
}

/// The variables of an association list, later entries shadowing none
/// (names are kept unique).
pub open spec fn assoc_map(v: Seq<(EnvVar, String)>) -> Map<Seq<char>, Seq<char>>
    decreases v.len(),
{
    if v.len() == 0 {
        Map::empty()
    } else {
        assoc_map(v.drop_last()).insert(v.last().0@, v.last().1@)
    }
}

/// Whether no name occurs twice in an association list.
pub open spec fn names_unique(v: Seq<(EnvVar, String)>) -> bool {
    forall|i: int, j: int| 0 <= i < j < v.len() ==> v[i].0@ != v[j].0@
}

impl MemEnvStore {
    /// Names are unique.
    #[verifier::type_invariant]
    spec fn inv(&self) -> bool {
        names_unique(self.values@)
    }

    /// Construct an empty store.
    pub fn new() -> (r: MemEnvStore)
        ensures
            r.vars() == Map::<Seq<char>, Seq<char>>::empty(),
    {
        MemEnvStore { values: Vec::new() }
    }

    /// A copy of every variable held, as `(name, value)` pairs, names
    /// unique.
    pub fn snapshot(&self) -> (r: Vec<(EnvVar, String)>)
        ensures
            names_unique(r@),
            assoc_map(r@) == self.vars(),
    {
        proof {
            use_type_invariant(self);
        }
        let ghost vs = self.values@;
        let mut out: Vec<(EnvVar, String)> = Vec::new();
        let mut i: usize = 0;
        while i < self.values.len()
            invariant
                i <= vs.len(),
                vs == self.values@,
                out@.len() == i,
                forall|k: int|
                    0 <= k < i ==> (#[trigger] out@[k]).0@ == vs[k].0@ && out@[k].1@ == vs[k].1@,
                assoc_map(out@) == assoc_map(vs.take(i as int)),
            decreases vs.len() - i,
        {
            let e = (self.values[i].0.duplicate(), self.values[i].1.clone());
            let ghost prev = out@;
            out.push(e);
            proof {
                assert(out@.drop_last() =~= prev);
                assert(vs.take(i + 1).drop_last() =~= vs.take(i as int));
            }
            i = i + 1;
        }
        proof {
            assert(vs.take(vs.len() as int) =~= vs);
            assert forall|a: int, b: int| 0 <= a < b < out@.len() implies out@[a].0@ != out@[b].0@ by {
                assert(out@[a].0@ == vs[a].0@);
                assert(out@[b].0@ == vs[b].0@);
            }
        }
        out
    }

    /// Take the list out, leaving an empty store behind.
    fn take(&mut self) -> (r: Vec<(EnvVar, String)>)
        ensures
            names_unique(r@),
            assoc_map(r@) == old(self).vars(),
    {
        proof {
            use_type_invariant(&*self);
        }
        let mut v: Vec<(EnvVar, String)> = Vec::new();
        std::mem::swap(&mut v, &mut self.values);
        v
    }

    proof fn lemma_assoc_lookup(v: Seq<(EnvVar, String)>, i: int)
        requires
            0 <= i < v.len(),
            forall|a: int, b: int| 0 <= a < b < v.len() ==> v[a].0@ != v[b].0@,
        ensures
            assoc_map(v).contains_key(v[i].0@),
            assoc_map(v)[v[i].0@] == v[i].1@,
        decreases v.len(),
    {
        if i < v.len() - 1 {
            Self::lemma_assoc_lookup(v.drop_last(), i);
        }
    }

    proof fn lemma_assoc_absent(v: Seq<(EnvVar, String)>, k: Seq<char>)
        requires
            forall|a: int| 0 <= a < v.len() ==> v[a].0@ != k,
        ensures
            !assoc_map(v).contains_key(k),
        decreases v.len(),
    {
        if v.len() > 0 {
            Self::lemma_assoc_absent(v.drop_last(), k);
        }
    }

    proof fn lemma_assoc_update(v: Seq<(EnvVar, String)>, i: int, e: (EnvVar, String))
        requires
            0 <= i < v.len(),
            e.0@ == v[i].0@,
            forall|a: int, b: int| 0 <= a < b < v.len() ==> v[a].0@ != v[b].0@,
        ensures
            assoc_map(v.update(i, e)) == assoc_map(v).insert(e.0@, e.1@),
        decreases v.len(),
    {
        if i < v.len() - 1 {
            Self::lemma_assoc_update(v.drop_last(), i, e);
            assert(v.update(i, e).drop_last() =~= v.drop_last().update(i, e));
            assert(assoc_map(v.update(i, e)) =~= assoc_map(v).insert(e.0@, e.1@));
        } else {
            assert(v.update(i, e).drop_last() =~= v.drop_last());
            assert(assoc_map(v.update(i, e)) =~= assoc_map(v).insert(e.0@, e.1@));
        }
    }

    proof fn lemma_assoc_remove(v: Seq<(EnvVar, String)>, i: int)
        requires
            0 <= i < v.len(),
            forall|a: int, b: int| 0 <= a < b < v.len() ==> v[a].0@ != v[b].0@,
        ensures
            assoc_map(v.remove(i)) == assoc_map(v).remove(v[i].0@),
        decreases v.len(),
    {
        if i < v.len() - 1 {
            Self::lemma_assoc_remove(v.drop_last(), i);
            assert(v.remove(i).drop_last() =~= v.drop_last().remove(i));
            assert(v.remove(i).last() == v.last());
            assert(assoc_map(v.remove(i)) =~= assoc_map(v).remove(v[i].0@));
        } else {
            assert(v.remove(i) =~= v.drop_last());
            Self::lemma_assoc_absent(v.drop_last(), v[i].0@);
            assert(assoc_map(v.remove(i)) =~= assoc_map(v).remove(v[i].0@));
        }
    }

    fn find(values: &Vec<(EnvVar, String)>, name: &EnvVar) -> (r: Option<usize>)
        ensures
            r matches Some(i) ==> i < values@.len() && values@[i as int].0@ == name@,
            r is None ==> forall|a: int| 0 <= a < values@.len() ==> values@[a].0@ != name@,
    {
        let mut i: usize = 0;
        while i < values.len()
            invariant
                i <= values@.len(),
                forall|a: int| 0 <= a < i ==> values@[a].0@ != name@,
            decreases values@.len() - i,
        {
            if values[i].0.same(name) {
                return Some(i);
            }
            i = i + 1;
        }
        None
    }
}

impl EnvStore for MemEnvStore {
    closed spec fn vars(&self) -> Map<Seq<char>, Seq<char>> {
        assoc_map(self.values@)
    }

    /// The in-memory store carries out every call.
    open spec fn dependable(&self) -> bool {
        true
    }

    /// The in-memory store keeps POSIX values.
    open spec fn platform_of(&self) -> Platform {
        Platform::Posix
    }

    fn platform(&self) -> (r: Platform) {
        Platform::Posix
    }

    fn read(&self, name: &EnvVar) -> (r: Result<Option<String>>)
        ensures
            r matches Ok(v) && opt_view(v) == lookup(self.vars(), name@),
    {
        proof {
            use_type_invariant(self);
        }
        match Self::find(&self.values, name) {
            Some(i) => {
                proof {
                    Self::lemma_assoc_lookup(self.values@, i as int);
                }
                Ok(Some(self.values[i].1.clone()))
            },
            None => {
                proof {
                    Self::lemma_assoc_absent(self.values@, name@);
                }
                Ok(None)
            },
        }
    }

    fn write(&mut self, name: &EnvVar, value: &str) -> (r: Result<()>)
        ensures
            r is Ok,
            final(self).vars() == old(self).vars().insert(name@, value@),
    {
        let mut values = self.take();
        let ghost before = values@;
        match Self::find(&values, name) {
            Some(i) => {
                let entry = (name.duplicate(), value.to_owned());
                values.set(i, entry);
                proof {
                    Self::lemma_assoc_update(before, i as int, entry);
                    assert(values@ == before.update(i as int, entry));
                }
            },
            None => {
                values.push((name.duplicate(), value.to_owned()));
                proof {
                    assert(values@.drop_last() =~= before);
                }
            },
        }
        self.values = values;
        Ok(())
    }

    fn remove(&mut self, name: &EnvVar) -> (r: Result<()>)
        ensures
            r is Ok,
            final(self).vars() == old(self).vars().remove(name@),
    {
        let mut values = self.take();
        let ghost before = values@;
        match Self::find(&values, name) {
            Some(i) => {
                values.remove(i);
                proof {
                    Self::lemma_assoc_remove(before, i as int);
                    assert(values@ == before.remove(i as int));
                }
            },
            None => {
                proof {
                    Self::lemma_assoc_absent(before, name@);
                    assert(assoc_map(before) =~= assoc_map(before).remove(name@));
                }
            },
        }
        self.values = values;
        Ok(())
    }
}

} // verus!
