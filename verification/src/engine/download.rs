//! The decisions of the network downloader: how a large file is split into
//! `Range` segments, how the total size is read from a `Content-Range`
//! answer, when a download is worth parallelising, and how long a retry
//! waits. The transfers themselves run in the application around this
//! library.

use vstd::prelude::*;

use crate::engine::url::Url;
use crate::error::{Error, Result};
use crate::text::{chars_of, dec_chars, dec_text, push_all, skip_chars, string_of, trim, trim_chars};

verus! {

/// Default number of concurrent segment workers for a parallel download.
pub const DEFAULT_PARALLEL_WORKERS: usize = 4;

/// Files smaller than this are not segmented and fetched as a single stream.
pub const PARALLEL_MIN_BYTES: u64 = 8388608;

/// How many times a single segment request is retried before giving up.
pub const SEGMENT_RETRIES: u32 = 3;

/// Whether a segment request that failed on attempt `attempt` (counting
/// retries from zero) is tried again.
pub fn retries_left(attempt: u32) -> (r: bool)
    ensures
        r == (attempt < SEGMENT_RETRIES),
{
    attempt < SEGMENT_RETRIES
}

/// Base retry backoff in milliseconds, doubling per retry.
pub const BACKOFF_INITIAL_MS: u64 = 200;

/// The cap on a retry backoff, in milliseconds.
pub const BACKOFF_CAP_MS: u64 = 2000;

/// The configuration of the real downloader: how many parallel segment
/// workers a large file is split across.
#[derive(Clone, Copy, Debug, PartialEq, Eq, Structural)]
pub struct RealDownloader {
    workers: usize,
}

/// The size of each segment when `total` bytes are split across `workers`.
pub open spec fn chunk_size(total: nat, workers: nat) -> nat {
    ((total + workers - 1) / workers as int) as nat
}

/// The number of non-empty ranges of `chunk` bytes covering `total` bytes.
pub open spec fn range_count(total: nat, chunk: nat) -> nat {
    ((total + chunk - 1) / chunk as int) as nat
}

/// The end of the range starting at `start`: a chunk later or the last byte.
pub open spec fn range_end(start: int, chunk: int, total: int) -> int {
    if start + chunk - 1 < total - 1 {
        start + chunk - 1
    } else {
        total - 1
    }
}

/// The `[start, end]` ranges splitting `[0, total)` across `workers`: range
/// `i` starts at `i * chunk` and ends a chunk later or at the last byte;
/// ranges that would start past the end are dropped.
pub open spec fn ranges_spec(total: nat, workers: nat) -> Seq<(u64, u64)> {
    let c = chunk_size(total, workers);
    Seq::new(range_count(total, c), |i: int| ((i * c) as u64, range_end(i * c, c as int, total as int) as u64))
}

/// Whether ranges tile `[0, total)`: each is non-empty, the first starts at
/// 0, each starts right after the previous one ends, and the last ends at the
/// final byte.
pub open spec fn tiles(ranges: Seq<(u64, u64)>, total: nat) -> bool {
    &&& ranges.len() > 0
    &&& ranges[0].0 == 0
    &&& ranges.last().1 == total - 1
    &&& forall|i: int| 0 <= i < ranges.len() ==> (#[trigger] ranges[i]).0 <= ranges[i].1
    &&& forall|i: int| 0 < i < ranges.len() ==> (#[trigger] ranges[i]).0 == ranges[i - 1].1 + 1
}

impl RealDownloader {
    /// The number of segment workers.
    pub closed spec fn workers_spec(&self) -> usize {
        self.workers
    }

    /// A downloader splitting large files across `workers` parallel segments
    /// (at least one).
    pub fn with_workers(workers: usize) -> (r: RealDownloader)
        ensures
            r.workers_spec() == (if workers > 1 {
                workers
            } else {
                1
            }),
    {
        RealDownloader { workers: if workers > 1 {
            workers
        } else {
            1
        } }
    }

    /// The number of segment workers.
    pub fn workers(&self) -> (r: usize)
        ensures
            r == self.workers_spec(),
    {
        self.workers
    }

    /// Split `[0, total)` into at most `workers` closed ranges of equal size
    /// (the last one shorter), dropping empty tails. The ranges tile the file.
    pub fn segment_ranges(total: u64, workers: usize) -> (r: Vec<(u64, u64)>)
        requires
            total > 0,
            workers > 0,
        ensures
            r@ == ranges_spec(total as nat, workers as nat),
            tiles(r@, total as nat),
            r@.len() <= workers,
    {
        let w = workers as u64;
        let q = total / w;
        proof {
            lemma_ceil_div(total as int, w as int);
            lemma_chunk(total as int, w as int, (total + (w - 1)) / w as int);
        }
        let chunk = if total % w == 0 {
            q
        } else {
            q + 1
        };
        let ghost n = range_count(total as nat, chunk as nat);
        let mut out: Vec<(u64, u64)> = Vec::new();
        let mut i: u64 = 0;
        let mut start: u64 = 0;
        let mut done = false;
        proof {
            assert(0 * chunk < total);
        }
        while !done
            invariant
                w == workers,
                chunk == chunk_size(total as nat, workers as nat),
                0 < chunk <= total,
                n == range_count(total as nat, chunk as nat),
                n <= w,
                forall|k: int| 0 <= k ==> (k < n <==> #[trigger] (k * chunk) < total),
                i <= n,
                done <==> i == n,
                !done ==> start == i * chunk && start < total,
                out@.len() == i,
                forall|k: int|
                    0 <= k < out@.len() ==> (#[trigger] out@[k]) == ((k * chunk) as u64, range_end(
                        k * chunk,
                        chunk as int,
                        total as int,
                    ) as u64),
            decreases n - i,
        {
            let end = if chunk - 1 < total - 1 - start {
                start + chunk - 1
            } else {
                total - 1
            };
            out.push((start, end));
            proof {
                assert((i + 1) * chunk == i * chunk + chunk) by (nonlinear_arith);
            }
            if total - 1 - start < chunk {
                done = true;
            } else {
                start = start + chunk;
            }
            i = i + 1;
        }
        proof {
            assert(out@ =~= ranges_spec(total as nat, workers as nat));
            assert(n > 0) by {
                assert(0 * chunk < total);
            }
            let last = n - 1;
            assert(out@.last() == out@[last as int]);
            assert(last * chunk + chunk - 1 >= total - 1) by {
                assert(!(n * chunk < total));
                assert(n * chunk == last * chunk + chunk) by (nonlinear_arith)
                    requires
                        last == n - 1,
                ;
            }
            assert forall|k: int| 0 < k < out@.len() implies (#[trigger] out@[k]).0 == out@[k - 1].1
                + 1 by {
                assert(k * chunk < total);
                assert(k * chunk == (k - 1) * chunk + chunk) by (nonlinear_arith);
            }
            assert forall|k: int| 0 <= k < out@.len() implies (#[trigger] out@[k]).0 <= out@[k].1 by {
                assert(k * chunk < total);
            }
        }
        out
    }

    /// Parse the total byte count from the trailing segment of
    /// `Content-Range` (e.g. `bytes 0-0/135468`); `None` when it is not a
    /// number.
    pub fn content_range_total(header: Option<&str>) -> (r: Option<u64>)
        ensures
            match header {
                None => r is None,
                Some(h) => r == parsed_u64(trim(after_last_slash(h@))),
            },
    {
        match header {
            None => None,
            Some(h) => {
                let cs = chars_of(h);
                let mut n: usize = cs.len();
                while n > 0 && cs[n - 1] != '/'
                    invariant
                        n <= cs@.len(),
                        cs@ == h@,
                        slash_start(h@, h@.len() as int) == slash_start(h@, n as int),
                    decreases n,
                {
                    n = n - 1;
                }
                let tail = skip_chars(cs.as_slice(), n);
                let t = trim_chars(tail.as_slice());
                parse_u64(t.as_slice())
            },
        }
    }
}

impl Default for RealDownloader {
    fn default() -> (r: RealDownloader)
        ensures
            r.workers_spec() == DEFAULT_PARALLEL_WORKERS,
    {
        RealDownloader::with_workers(DEFAULT_PARALLEL_WORKERS)
    }
}

/// Rounding a quotient up: the floor quotient, plus one when there is a
/// remainder.
proof fn lemma_ceil_div(total: int, w: int)
    requires
        total > 0,
        w > 0,
    ensures
        total / w + (if total % w == 0 {
            0int
        } else {
            1int
        }) == (total + (w - 1)) / w,
{
    let q = total / w;
    let r = total % w;
    vstd::arithmetic::div_mod::lemma_fundamental_div_mod(total, w);
    assert(w * q == q * w) by (nonlinear_arith);
    if r == 0 {
        vstd::arithmetic::div_mod::lemma_fundamental_div_mod_converse(total + (w - 1), w, q, w - 1);
    } else {
        assert((q + 1) * w == q * w + w) by (nonlinear_arith);
        vstd::arithmetic::div_mod::lemma_fundamental_div_mod_converse(
            total + (w - 1),
            w,
            q + 1,
            r - 1,
        );
    }
}

proof fn lemma_chunk(total: int, w: int, chunk: int)
    requires
        total > 0,
        w > 0,
        chunk == (total + (w - 1)) / w,
    ensures
        chunk == chunk_size(total as nat, w as nat),
        0 < chunk <= total,
        w * chunk <= total + w - 1,
        range_count(total as nat, chunk as nat) <= w,
        forall|k: int|
            0 <= k ==> (k < range_count(total as nat, chunk as nat) <==> #[trigger] (k * chunk) < total),
{
    assert(0 < chunk <= total) by (nonlinear_arith)
        requires
            total > 0,
            w > 0,
            chunk == (total + (w - 1)) / w,
    ;
    assert(w * chunk <= total + w - 1 && w * chunk >= total) by (nonlinear_arith)
        requires
            w > 0,
            chunk == (total + (w - 1)) / w,
    ;
    let n = range_count(total as nat, chunk as nat) as int;
    assert(n == (total + chunk - 1) / chunk);
    assert(n * chunk >= total && (n - 1) * chunk < total) by (nonlinear_arith)
        requires
            chunk > 0,
            n == (total + chunk - 1) / chunk,
    ;
    assert(n <= w) by (nonlinear_arith)
        requires
            chunk > 0,
            w > 0,
            w * chunk >= total,
            (n - 1) * chunk < total,
    ;
    assert forall|k: int| 0 <= k implies (k < n <==> #[trigger] (k * chunk) < total) by {
        if k < n {
            assert(k * chunk <= (n - 1) * chunk) by (nonlinear_arith)
                requires
                    k <= n - 1,
                    chunk > 0,
            ;
        } else {
            assert(k * chunk >= n * chunk) by (nonlinear_arith)
                requires
                    k >= n,
                    chunk > 0,
            ;
        }
    }
}

/// Position just after the last `/` at or before `n` (0 when none).
pub open spec fn slash_start(h: Seq<char>, n: int) -> int
    decreases n,
{
    if n <= 0 {
        0
    } else if h[n - 1] == '/' {
        n
    } else {
        slash_start(h, n - 1)
    }
}

/// The text after the last `/` (all of it when there is none).
pub open spec fn after_last_slash(h: Seq<char>) -> Seq<char> {
    h.skip(slash_start(h, h.len() as int))
}

/// The value of a decimal digit character.
pub open spec fn digit_value(c: char) -> int {
    (c as int) - ('0' as int)
}

/// Whether a character is an ASCII decimal digit.
pub open spec fn is_digit(c: char) -> bool {
    '0' <= c && c <= '9'
}

/// The value of a run of decimal digits.
pub open spec fn digits_value(s: Seq<char>) -> int
    decreases s.len(),
{
    if s.len() == 0 {
        0
    } else {
        digits_value(s.drop_last()) * 10 + digit_value(s.last())
    }
}

/// A text without its leading `+`, if any.
pub open spec fn unsigned_part(s: Seq<char>) -> Seq<char> {
    if s.len() > 0 && s[0] == '+' {
        s.drop_first()
    } else {
        s
    }
}

/// Whether every character is an ASCII decimal digit.
pub open spec fn all_digits(d: Seq<char>) -> bool {
    forall|i: int| 0 <= i < d.len() ==> is_digit(#[trigger] d[i])
}

/// What `u64::from_str` makes of a text: an optional `+`, then at least one
/// ASCII digit, with a value that fits.
pub open spec fn parsed_u64(s: Seq<char>) -> Option<u64> {
    let d = unsigned_part(s);
    if d.len() > 0 && all_digits(d) && digits_value(d) <= u64::MAX {
        Some(digits_value(d) as u64)
    } else {
        None
    }
}

/// Parse an unsigned decimal number as `u64::from_str` does.
pub fn parse_u64(s: &[char]) -> (r: Option<u64>)
    ensures
        r == parsed_u64(s@),
{
    let mut i: usize = 0;
    if s.len() > 0 && s[0] == '+' {
        i = 1;
    }
    let ghost d = s@.skip(i as int);
    assert(d =~= unsigned_part(s@));
    if i == s.len() {
        return None;
    }
    let mut value: u64 = 0;
    let start = i;
    while i < s.len()
        invariant
            start <= i <= s@.len(),
            d == s@.skip(start as int),
            d == unsigned_part(s@),
            start < s@.len(),
            forall|k: int| start <= k < i ==> is_digit(#[trigger] s@[k]),
            value == digits_value(s@.subrange(start as int, i as int)),
        decreases s@.len() - i,
    {
        let c = s[i];
        if !('0' <= c && c <= '9') {
            proof {
                let k = i - start;
                assert(d[k] == c);
                assert(!is_digit(d[k]));
                assert(!all_digits(d));
            }
            return None;
        }
        let dv = (c as u32 - '0' as u32) as u64;
        proof {
            let sub = s@.subrange(start as int, i + 1);
            assert(sub.drop_last() =~= s@.subrange(start as int, i as int));
            assert(sub.last() == c);
        }
        if value > (u64::MAX - dv) / 10 {
            proof {
                assert(value * 10 + dv > u64::MAX) by (nonlinear_arith)
                    requires
                        value > (u64::MAX - dv) / 10,
                        dv <= 9,
                ;
                assert(digits_value(s@.subrange(start as int, i + 1)) > u64::MAX);
                assert(d.take((i + 1 - start) as int) =~= s@.subrange(start as int, i + 1));
                if all_digits(d) {
                    lemma_digits_grow(d, (i + 1 - start) as int);
                    assert(digits_value(d) > u64::MAX);
                }
            }
            return None;
        }
        value = value * 10 + dv;
        i = i + 1;
    }
    assert(s@.subrange(start as int, s@.len() as int) =~= d);
    Some(value)
}

proof fn lemma_digits_grow(d: Seq<char>, n: int)
    requires
        0 <= n <= d.len(),
        all_digits(d),
    ensures
        digits_value(d.take(n)) <= digits_value(d),
    decreases d.len() - n,
{
    if n < d.len() {
        lemma_digits_grow(d, n + 1);
        let t = d.take(n + 1);
        assert(t.drop_last() =~= d.take(n));
        assert(digits_value(d.take(n)) >= 0) by {
            lemma_digits_nonneg(d.take(n));
        }
    } else {
        assert(d.take(n) =~= d);
    }
}

proof fn lemma_digits_nonneg(d: Seq<char>)
    requires
        all_digits(d),
    ensures
        digits_value(d) >= 0,
    decreases d.len(),
{
    if d.len() > 0 {
        lemma_digits_nonneg(d.drop_last());
    }
}

/// The base backoff doubled `n` times, in milliseconds.
pub open spec fn doubled(n: nat) -> nat
    decreases n,
{
    if n == 0 {
        200
    } else {
        2 * doubled((n - 1) as nat)
    }
}

/// Exponential backoff for the `attempt`-th retry, in milliseconds: 200 ms
/// doubling per retry from the second on (at most four doublings), capped at
/// two seconds.
pub open spec fn backoff_spec(attempt: u32) -> nat {
    let shift: nat = if attempt == 0 {
        0
    } else if attempt - 1 > 4 {
        4
    } else {
        (attempt - 1) as nat
    };
    if doubled(shift) > 2000 {
        2000
    } else {
        doubled(shift)
    }
}

/// The delay before the `attempt`-th retry of a segment request, in
/// milliseconds.
pub fn backoff_millis(attempt: u32) -> (r: u64)
    ensures
        r == backoff_spec(attempt),
        r <= BACKOFF_CAP_MS,
{
    let shift: u64 = if attempt == 0 {
        0
    } else if attempt - 1 > 4 {
        4
    } else {
        (attempt - 1) as u64
    };
    let mut millis: u64 = BACKOFF_INITIAL_MS;
    let mut k: u64 = 0;
    proof {
        reveal_with_fuel(doubled, 5);
    }
    while k < shift
        invariant
            k <= shift <= 4,
            millis == doubled(k as nat),
            doubled(k as nat) <= 200 * 16,
            forall|j: nat| j <= 4 ==> #[trigger] doubled(j) <= 200 * 16,
        decreases shift - k,
    {
        millis = millis * 2;
        k = k + 1;
    }
    if millis > BACKOFF_CAP_MS {
        BACKOFF_CAP_MS
    } else {
        millis
    }
}

/// Whether a download of the probed size is split into parallel segments:
/// only when the server reported a total (it supports `Range`) of at least
/// the minimum size.
pub fn use_parallel(probed_total: Option<u64>) -> (r: bool)
    ensures
        r == (probed_total matches Some(t) && t >= PARALLEL_MIN_BYTES),
{
    match probed_total {
        Some(t) => t >= PARALLEL_MIN_BYTES,
        None => false,
    }
}

/// A byte range of a download.
#[derive(Clone, Debug)]
pub struct Segment {
    url: Url,
    start: u64,
    end: u64,
}

impl Segment {
    /// The URL the range belongs to.
    pub closed spec fn url_spec(&self) -> Url {
        self.url
    }

    /// The inclusive start offset.
    pub closed spec fn start_spec(&self) -> u64 {
        self.start
    }

    /// The inclusive end offset.
    pub closed spec fn end_spec(&self) -> u64 {
        self.end
    }

    /// A segment carrying the `[start, end]` byte range of `url`.
    pub fn new(url: Url, start: u64, end: u64) -> (r: Segment)
        ensures
            r.url_spec() == url,
            r.start_spec() == start,
            r.end_spec() == end,
    {
        Segment { url, start, end }
    }

    /// The URL this segment belongs to.
    pub fn url(&self) -> (r: &Url)
        ensures
            *r == self.url_spec(),
    {
        &self.url
    }

    /// The inclusive start offset of the range.
    pub fn start(&self) -> (r: u64)
        ensures
            r == self.start_spec(),
    {
        self.start
    }

    /// The number of bytes this segment promises to deliver.
    pub fn len(&self) -> (r: u64)
        requires
            self.start_spec() <= self.end_spec(),
            self.end_spec() < u64::MAX,
        ensures
            r == self.end_spec() - self.start_spec() + 1,
    {
        self.end - self.start + 1
    }

    /// The `Range` request header value, `bytes=start-end`.
    pub fn range(&self) -> (r: String)
        ensures
            r@ == "bytes="@ + dec_text(self.start_spec() as nat) + "-"@ + dec_text(
                self.end_spec() as nat,
            ),
    {
        let mut out = chars_of("bytes=");
        let a = dec_chars(self.start);
        push_all(&mut out, a.as_slice());
        let dash = chars_of("-");
        push_all(&mut out, dash.as_slice());
        let b = dec_chars(self.end);
        push_all(&mut out, b.as_slice());
        string_of(out.as_slice())
    }

    /// Accept a finished transfer of `done` bytes only when the whole range
    /// arrived; a short one is a network error naming the range.
    pub fn check_complete(&self, done: u64) -> (r: Result<()>)
        requires
            self.start_spec() <= self.end_spec(),
            self.end_spec() < u64::MAX,
        ensures
            r is Ok <==> done == self.end_spec() - self.start_spec() + 1,
            r matches Err(e) ==> (e matches Error::Network(m) && m@ == "segment bytes="@ + dec_text(
                self.start_spec() as nat,
            ) + "-"@ + dec_text(self.end_spec() as nat) + " truncated: got "@ + dec_text(done as nat)
                + " bytes"@),
    {
        if done == self.len() {
            return Ok(());
        }
        let mut m = chars_of("segment ");
        let range = self.range();
        let rc = chars_of(range.as_str());
        push_all(&mut m, rc.as_slice());
        let t = chars_of(" truncated: got ");
        push_all(&mut m, t.as_slice());
        let d = dec_chars(done);
        push_all(&mut m, d.as_slice());
        let b = chars_of(" bytes");
        push_all(&mut m, b.as_slice());
        proof {
            reveal_strlit("segment ");
            reveal_strlit("segment bytes=");
            reveal_strlit("bytes=");
            assert("segment "@ + "bytes="@ =~= "segment bytes="@);
        }
        Err(Error::Network(string_of(m.as_slice())))
    }

    /// Bytes to keep of a chunk of `read` bytes arriving at offset `done`:
    /// never overshoot the range.
    pub fn take_length(&self, read: usize, done: u64) -> (r: usize)
        requires
            self.start_spec() <= self.end_spec(),
            self.end_spec() < u64::MAX,
            done <= self.end_spec() - self.start_spec() + 1,
        ensures
            r == (if read <= self.end_spec() - self.start_spec() + 1 - done {
                read as int
            } else {
                self.end_spec() - self.start_spec() + 1 - done
            }),
    {
        let left = self.len() - done;
        if (read as u64) <= left {
            read
        } else {
            left as usize
        }
    }
}

} // verus!
