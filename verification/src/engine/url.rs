//! A fully-resolved download URL.

use vstd::prelude::*;

use crate::text::{chars_of, skip_chars, string_of};

verus! {

/// Whether a character separates URL path segments.
pub open spec fn is_url_sep(c: char) -> bool {
    c == '/' || c == '\\'
}

/// Position just after the last separator at or before `n` (0 when none).
pub open spec fn segment_start(u: Seq<char>, n: int) -> int
    decreases n,
{
    if n <= 0 {
        0
    } else if is_url_sep(u[n - 1]) {
        n
    } else {
        segment_start(u, n - 1)
    }
}

/// The trailing path segment of a URL, or `archive.bin` when it is empty.
pub open spec fn url_file_name(u: Seq<char>) -> Seq<char> {
    let tail = u.subrange(segment_start(u, u.len() as int), u.len() as int);
    if tail.len() == 0 {
        "archive.bin"@
    } else {
        tail
    }
}

/// A fully-resolved download URL (placeholders already substituted).
#[derive(Clone, Debug, PartialEq, Eq)]
pub struct Url(String);

impl View for Url {
    type V = Seq<char>;

    closed spec fn view(&self) -> Seq<char> {
        self.0@
    }
}

impl Url {
    /// Wrap a resolved URL.
    pub fn new(value: String) -> (r: Url)
        ensures
            r@ == value@,
    {
        Url(value)
    }

    /// The URL as a string slice, for rendering and network calls.
    pub fn as_str(&self) -> (r: &str)
        ensures
            r@ == self@,
    {
        self.0.as_str()
    }

    /// A copy of this URL.
    pub fn duplicate(&self) -> (r: Url)
        ensures
            r@ == self@,
    {
        Url(self.0.clone())
    }

    /// The trailing path segment, used to name the local file the URL is
    /// saved as (`archive.bin` when the URL ends in a separator).
    pub fn file_name(&self) -> (r: String)
        ensures
            r@ == url_file_name(self@),
    {
        let cs = chars_of(self.0.as_str());
        let mut n: usize = cs.len();
        while n > 0 && cs[n - 1] != '/' && cs[n - 1] != '\\'
            invariant
                n <= cs@.len(),
                cs@ == self@,
                segment_start(self@, self@.len() as int) == segment_start(self@, n as int),
            decreases n,
        {
            n = n - 1;
        }
        let tail = skip_chars(cs.as_slice(), n);
        if tail.len() == 0 {
            "archive.bin".to_owned()
        } else {
            string_of(tail.as_slice())
        }
    }
}

impl From<String> for Url {
    fn from(value: String) -> Url {
        Url(value)
    }
}

impl vstd::std_specs::convert::FromSpecImpl<String> for Url {
    open spec fn obeys_from_spec() -> bool {
        false
    }

    open spec fn from_spec(v: String) -> Url {
        choose|u: Url| u@ == v@
    }
}

} // verus!
