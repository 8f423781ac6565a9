//! Filesystem path primitives whose validity depends on the platform.
//!
//! A name that is a safe directory segment on one OS can be unusable on
//! another. These newtypes make the platform rule a property of the type, so it
//! cannot be forgotten at the point of use. The platform is an input: POSIX
//! asks only that a segment be non-empty, not `.` or `..`, and free of `/` and
//! NUL; Windows also forbids `<>:"\|?*`, a trailing dot or space, and the
//! reserved device names (`CON`, `NUL`, `COM1`-`COM9`, ...).

use vstd::prelude::*;

use crate::error::{Error, Result};
use crate::text::{chars_eq, chars_of, str_eq, take_chars};

verus! {

/// The platform whose naming rules apply.
#[derive(Clone, Copy, Debug, PartialEq, Eq, Structural)]
pub enum Platform {
    /// Linux, macOS and the other POSIX systems.
    Posix,
    /// Windows.
    Windows,
}

/// The characters a Windows directory name may not hold (besides `/` and NUL).
pub open spec fn windows_reserved_char(c: char) -> bool {
    c == '\\' || c == ':' || c == '<' || c == '>' || c == '"' || c == '|' || c == '?' || c == '*'
}

/// The number of ASCII digits ending `s`.
pub open spec fn trailing_digits(s: Seq<char>) -> nat
    decreases s.len(),
{
    if s.len() > 0 && '0' <= s.last() <= '9' {
        trailing_digits(s.drop_last()) + 1
    } else {
        0
    }
}

/// Whether `name` is a Windows reserved device name: `CON`, `PRN`, `AUX` or
/// `NUL` (with any digits after), or `COM`/`LPT` followed by digits.
pub open spec fn is_reserved_device(name: Seq<char>) -> bool {
    let t = trailing_digits(name);
    let base = name.take(name.len() - t);
    base == "CON"@ || base == "PRN"@ || base == "AUX"@ || base == "NUL"@ || ((base == "COM"@
        || base == "LPT"@) && t > 0)
}

/// Why a text is not a usable directory segment on `p`, or `None` when it is.
pub open spec fn name_problem_on(p: Platform, name: Seq<char>) -> Option<Seq<char>> {
    if name.len() == 0 {
        Some("empty"@)
    } else if name == "."@ || name == ".."@ {
        Some("cannot be '.' or '..'"@)
    } else if name.contains('\0') {
        Some("contains a NUL byte"@)
    } else if name.contains('/') {
        Some("contains '/'"@)
    } else if p is Posix {
        None
    } else if exists|i: int| 0 <= i < name.len() && windows_reserved_char(#[trigger] name[i]) {
        Some("contains a character not allowed in a Windows directory name"@)
    } else if name.last() == '.' || name.last() == ' ' {
        Some("ends in a '.' or space, which Windows reserves"@)
    } else if is_reserved_device(name) {
        Some("is a Windows reserved device name"@)
    } else {
        None
    }
}

/// Why a text is not a usable directory segment under the POSIX rules.
pub open spec fn name_problem(name: Seq<char>) -> Option<Seq<char>> {
    name_problem_on(Platform::Posix, name)
}

/// A single filesystem directory segment, validated against the POSIX rules.
///
/// Construction **rejects** bad names (rather than sanitizing them) so install
/// directories are predictable and collision-free.
#[derive(Clone, Debug, PartialEq, Eq, Hash)]
pub struct DirName(String);

impl View for DirName {
    type V = Seq<char>;

    closed spec fn view(&self) -> Seq<char> {
        self.0@
    }
}

/// Whether `e` rejects `name` for reason `detail`.
pub open spec fn is_invalid_name(e: Error, name: Seq<char>, detail: Seq<char>) -> bool {
    e matches Error::InvalidName { name: n, detail: d } && n@ == name && d@ == detail
}

/// The error for a rejected name.
pub fn invalid(name: &str, detail: &str) -> (r: Error)
    ensures
        r matches Error::InvalidName { name: n, detail: d } && n@ == name@ && d@ == detail@,
{
    Error::InvalidName { name: name.to_owned(), detail: detail.to_owned() }
}

fn contains_char(cs: &Vec<char>, c: char) -> (r: bool)
    ensures
        r == cs@.contains(c),
{
    let mut i: usize = 0;
    while i < cs.len()
        invariant
            i <= cs@.len(),
            forall|k: int| 0 <= k < i ==> cs@[k] != c,
        decreases cs@.len() - i,
    {
        if cs[i] == c {
            assert(cs@[i as int] == c);
            return true;
        }
        i = i + 1;
    }
    false
}

fn has_windows_reserved_char(cs: &Vec<char>) -> (r: bool)
    ensures
        r == exists|i: int| 0 <= i < cs@.len() && windows_reserved_char(#[trigger] cs@[i]),
{
    let mut i: usize = 0;
    while i < cs.len()
        invariant
            i <= cs@.len(),
            forall|k: int| 0 <= k < i ==> !windows_reserved_char(#[trigger] cs@[k]),
        decreases cs@.len() - i,
    {
        let c = cs[i];
        if c == '\\' || c == ':' || c == '<' || c == '>' || c == '"' || c == '|' || c == '?' || c
            == '*' {
            assert(windows_reserved_char(cs@[i as int]));
            return true;
        }
        i = i + 1;
    }
    false
}

fn same_chars(cs: &[char], lit: &str) -> (r: bool)
    ensures
        r == (cs@ == lit@),
{
    let l = chars_of(lit);
    chars_eq(cs, l.as_slice())
}

fn reserved_device(cs: &Vec<char>) -> (r: bool)
    ensures
        r == is_reserved_device(cs@),
{
    let mut t: usize = 0;
    assert(cs@.take(cs@.len() as int) =~= cs@);
    while t < cs.len() && '0' <= cs[cs.len() - 1 - t] && cs[cs.len() - 1 - t] <= '9'
        invariant
            t <= cs@.len(),
            trailing_digits(cs@) == t + trailing_digits(cs@.take(cs@.len() - t)),
        decreases cs@.len() - t,
    {
        proof {
            let u = cs@.take(cs@.len() - t);
            assert(u.drop_last() =~= cs@.take(cs@.len() - (t + 1)));
            assert(u.last() == cs@[cs@.len() - 1 - t]);
        }
        t = t + 1;
    }
    proof {
        let u = cs@.take(cs@.len() - t);
        if t < cs@.len() {
            assert(u.last() == cs@[cs@.len() - 1 - t]);
        }
        assert(trailing_digits(u) == 0);
        assert(trailing_digits(cs@) == t);
    }
    let base = take_chars(cs.as_slice(), cs.len() - t);
    if same_chars(base.as_slice(), "CON") || same_chars(base.as_slice(), "PRN") || same_chars(
        base.as_slice(),
        "AUX",
    ) || same_chars(base.as_slice(), "NUL") {
        true
    } else {
        (same_chars(base.as_slice(), "COM") || same_chars(base.as_slice(), "LPT")) && t > 0
    }
}

/// Check a name against the directory-segment rules of `platform`.
pub fn validate(name: &str, platform: Platform) -> (r: Result<()>)
    ensures
        r is Ok <==> name_problem_on(platform, name@) is None,
        r matches Err(e) ==> name_problem_on(platform, name@) matches Some(d) && is_invalid_name(
            e,
            name@,
            d,
        ),
{
    let cs = chars_of(name);
    if cs.len() == 0 {
        return Err(invalid(name, "empty"));
    }
    if str_eq(name, ".") || str_eq(name, "..") {
        return Err(invalid(name, "cannot be '.' or '..'"));
    }
    if contains_char(&cs, '\0') {
        return Err(invalid(name, "contains a NUL byte"));
    }
    if contains_char(&cs, '/') {
        return Err(invalid(name, "contains '/'"));
    }
    match platform {
        Platform::Posix => Ok(()),
        Platform::Windows => {
            if has_windows_reserved_char(&cs) {
                return Err(
                    invalid(name, "contains a character not allowed in a Windows directory name"),
                );
            }
            let last = cs[cs.len() - 1];
            if last == '.' || last == ' ' {
                return Err(invalid(name, "ends in a '.' or space, which Windows reserves"));
            }
            if reserved_device(&cs) {
                return Err(invalid(name, "is a Windows reserved device name"));
            }
            Ok(())
        },
    }
}

impl DirName {
    /// Validate `value` as a directory segment under the POSIX rules.
    pub fn new(value: String) -> (r: Result<DirName>)
        ensures
            r matches Ok(d) ==> d@ == value@ && name_problem(value@) is None,
            r matches Err(e) ==> name_problem(value@) matches Some(d) && is_invalid_name(
                e,
                value@,
                d,
            ),
            r is Ok <==> name_problem(value@) is None,
    {
        DirName::on(value, Platform::Posix)
    }

    /// Validate `value` as a directory segment under the rules of `platform`.
    pub fn on(value: String, platform: Platform) -> (r: Result<DirName>)
        ensures
            r matches Ok(d) ==> d@ == value@ && name_problem_on(platform, value@) is None,
            r matches Err(e) ==> name_problem_on(platform, value@) matches Some(d)
                && is_invalid_name(e, value@, d),
            r is Ok <==> name_problem_on(platform, value@) is None,
    {
        match validate(value.as_str(), platform) {
            Ok(()) => Ok(DirName(value)),
            Err(e) => Err(e),
        }
    }

    /// The directory segment as a string.
    pub fn as_str(&self) -> (r: &str)
        ensures
            r@ == self@,
    {
        self.0.as_str()
    }

    /// A copy of this name.
    pub fn duplicate(&self) -> (r: DirName)
        ensures
            r@ == self@,
    {
        DirName(self.0.clone())
    }
}

/// The installed tool root directory, as recorded in a receipt.
#[derive(Clone, Debug, PartialEq, Eq)]
pub struct AppDir(String);

impl View for AppDir {
    type V = Seq<char>;

    closed spec fn view(&self) -> Seq<char> {
        self.0@
    }
}

impl AppDir {
    /// Wrap a path, capturing it in its string form.
    pub fn from_path(path: &str) -> (r: AppDir)
        ensures
            r@ == path@,
    {
        AppDir(path.to_owned())
    }

    /// The stored path, for reads and removals.
    pub fn as_path(&self) -> (r: &str)
        ensures
            r@ == self@,
    {
        self.0.as_str()
    }
}

impl From<String> for AppDir {
    fn from(value: String) -> AppDir {
        AppDir(value)
    }
}

impl From<&str> for AppDir {
    fn from(value: &str) -> AppDir {
        AppDir(value.to_owned())
    }
}

impl vstd::std_specs::convert::FromSpecImpl<String> for AppDir {
    open spec fn obeys_from_spec() -> bool {
        false
    }

    open spec fn from_spec(v: String) -> AppDir {
        choose|a: AppDir| a@ == v@
    }
}

impl vstd::std_specs::convert::FromSpecImpl<&str> for AppDir {
    open spec fn obeys_from_spec() -> bool {
        false
    }

    open spec fn from_spec(v: &str) -> AppDir {
        choose|a: AppDir| a@ == v@
    }
}

/// Under the POSIX rules a directory segment is refused only when it is
/// empty, `.` or `..`, or holds `/` or NUL: every other name is accepted.
pub proof fn law_posix_accepts_plain_names(name: Seq<char>)
    requires
        name.len() > 0,
        name != "."@,
        name != ".."@,
        !name.contains('/'),
        !name.contains('\0'),
    ensures
        name_problem_on(Platform::Posix, name) is None,
        name_problem(name) is None,
{
}

/// The Windows rules only add refusals to the POSIX ones: a name POSIX
/// refuses, Windows refuses too; and Windows refuses a name holding one of
/// `\ : < > " | ? *`, one ending in `.` or a space, and the device names.
pub proof fn law_windows_stricter(name: Seq<char>, i: int)
    ensures
        name_problem_on(Platform::Posix, name) is Some ==> name_problem_on(
            Platform::Windows,
            name,
        ) is Some,
        0 <= i < name.len() && (name[i] == '\\' || name[i] == ':' || name[i] == '<' || name[i]
            == '>' || name[i] == '"' || name[i] == '|' || name[i] == '?' || name[i] == '*')
            ==> name_problem_on(Platform::Windows, name) is Some,
        name.len() > 0 && (name.last() == '.' || name.last() == ' ') ==> name_problem_on(
            Platform::Windows,
            name,
        ) is Some,
        name == "CON"@ || name == "NUL"@ || name == "COM1"@ ==> name_problem_on(
            Platform::Windows,
            name,
        ) is Some,
{
    if 0 <= i < name.len() && windows_reserved_char(name[i]) {
        assert(windows_reserved_char(name[i]));
    }
    reveal_strlit("CON");
    reveal_strlit("NUL");
    reveal_strlit("COM1");
    reveal_strlit("COM");
    reveal_strlit(".");
    reveal_strlit("..");
    if name == "COM1"@ {
        assert(trailing_digits(name.drop_last().drop_last().drop_last().drop_last()) == 0);
        assert(trailing_digits(name.drop_last().drop_last().drop_last()) == 0);
        assert(trailing_digits(name.drop_last().drop_last()) == 0);
        assert(trailing_digits(name.drop_last()) == 0);
        assert(trailing_digits(name) == 1);
        assert(name.take(3) =~= "COM"@);
    }
    if name == "CON"@ {
        assert(trailing_digits(name) == 0);
        assert(name.take(3) =~= name);
    }
    if name == "NUL"@ {
        assert(trailing_digits(name) == 0);
        assert(name.take(3) =~= name);
    }
}

} // verus!
