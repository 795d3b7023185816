//! The `Range` header grammar, its resolution against a resource length, and the
//! evaluation of conditional request headers against a last-modified time.
use vstd::prelude::*;

verus! {

/// ASCII `-`.
pub const DASH: u8 = 45;

/// One byte range as written in a `Range: bytes=...` header.
#[derive(Clone, Copy, Debug, PartialEq, Eq, Structural)]
pub enum ByteRangeSpec {
    /// `first-last`, both inclusive.
    FromTo(u64, u64),
    /// `first-`: from `first` to the end.
    From(u64),
    /// `-n`: the last `n` bytes.
    Suffix(u64),
}

/// A range header that is malformed or cannot be satisfied by the resource.
#[derive(Clone, Copy, Debug, PartialEq, Eq, Structural)]
pub struct BadRangeError;

/// The prefix of a byte range header value: `bytes=`.
pub open spec fn bytes_unit() -> Seq<u8> {
    seq![98u8, 121u8, 116u8, 101u8, 115u8, 61u8]
}

pub open spec fn is_digit(c: u8) -> bool {
    48 <= c && c <= 57
}

pub open spec fn all_digits(s: Seq<u8>) -> bool {
    forall|i: int| 0 <= i < s.len() ==> #[trigger] is_digit(s[i])
}

/// The decimal value of a string of digits.
pub open spec fn digits_value(s: Seq<u8>) -> nat
    decreases s.len(),
{
    if s.len() == 0 {
        0
    } else {
        digits_value(s.drop_last()) * 10 + (s.last() - 48) as nat
    }
}

/// A non-empty decimal number that fits in 64 bits.
pub open spec fn number_of(s: Seq<u8>) -> Option<u64> {
    if s.len() > 0 && all_digits(s) && digits_value(s) <= u64::MAX {
        Some(digits_value(s) as u64)
    } else {
        None
    }
}

pub open spec fn is_first_dash(b: Seq<u8>, i: int) -> bool {
    0 <= i < b.len() && b[i] == DASH && forall|j: int| 0 <= j < i ==> b[j] != DASH
}

/// The range written after `bytes=`: `a-b`, `a-` or `-n`, with decimal numbers.
pub open spec fn range_body_of(b: Seq<u8>) -> Option<ByteRangeSpec> {
    if exists|i: int| is_first_dash(b, i) {
        let i = choose|i: int| is_first_dash(b, i);
        let left = b.take(i);
        let right = b.skip(i + 1);
        if left.len() == 0 {
            match number_of(right) {
                Some(n) => Some(ByteRangeSpec::Suffix(n)),
                None => None,
            }
        } else if right.len() == 0 {
            match number_of(left) {
                Some(a) => Some(ByteRangeSpec::From(a)),
                None => None,
            }
        } else {
            match (number_of(left), number_of(right)) {
                (Some(a), Some(z)) => Some(ByteRangeSpec::FromTo(a, z)),
                _ => None,
            }
        }
    } else {
        None
    }
}

/// The range a header value denotes, if it is well formed.
pub open spec fn range_header_of(v: Seq<u8>) -> Option<ByteRangeSpec> {
    if v.len() >= 6 && v.take(6) == bytes_unit() {
        range_body_of(v.skip(6))
    } else {
        None
    }
}

/// The half-open interval `[start, end)` that a range selects from `len` bytes,
/// or `None` when it selects nothing.
pub open spec fn interval_of(r: ByteRangeSpec, len: nat) -> Option<(nat, nat)> {
    match r {
        ByteRangeSpec::FromTo(a, z) => if a > z || a >= len {
            None
        } else if z + 1 < len {
            Some((a as nat, (z + 1) as nat))
        } else {
            Some((a as nat, len))
        },
        ByteRangeSpec::From(a) => if a >= len {
            None
        } else {
            Some((a as nat, len))
        },
        ByteRangeSpec::Suffix(n) => if n == 0 || len == 0 {
            None
        } else if n < len {
            Some(((len - n) as nat, len))
        } else {
            Some((0, len))
        },
    }
}

/// What a request's range header selects from `len` bytes: all of them without a
/// header, the denoted interval with a satisfiable one, and `None` otherwise.
pub open spec fn bytes_range_of(range: Option<Seq<u8>>, len: nat) -> Option<(nat, nat)> {
    match range {
        None => Some((0, len)),
        Some(v) => match range_header_of(v) {
            Some(r) => interval_of(r, len),
            None => None,
        },
    }
}

proof fn lemma_prefix_value_le(s: Seq<u8>, k: int)
    requires
        0 <= k <= s.len(),
        all_digits(s),
    ensures
        digits_value(s.take(k)) <= digits_value(s),
    decreases s.len(),
{
    if k < s.len() {
        assert(s.drop_last().take(k) =~= s.take(k));
        assert(all_digits(s.drop_last())) by {
            assert forall|i: int| 0 <= i < s.drop_last().len() implies #[trigger] is_digit(
                s.drop_last()[i],
            ) by {
                assert(is_digit(s[i]));
            }
        }
        lemma_prefix_value_le(s.drop_last(), k);
    } else {
        assert(s.take(k) =~= s);
    }
}

/// Reads the decimal number in `b[lo..hi]`.
fn parse_number(b: &[u8], lo: usize, hi: usize) -> (r: Option<u64>)
    requires
        lo <= hi <= b@.len(),
    ensures
        r == number_of(b@.subrange(lo as int, hi as int)),
{
    if lo == hi {
        return None;
    }
    let ghost s = b@.subrange(lo as int, hi as int);
    let mut v: u64 = 0;
    let mut i: usize = lo;
    while i < hi
        invariant
            lo <= i <= hi <= b@.len(),
            s == b@.subrange(lo as int, hi as int),
            all_digits(b@.subrange(lo as int, i as int)),
            v as nat == digits_value(b@.subrange(lo as int, i as int)),
        decreases hi - i,
    {
        let c = b[i];
        let ghost p = b@.subrange(lo as int, i as int);
        let ghost q = b@.subrange(lo as int, i as int + 1);
        assert(q.drop_last() =~= p);
        assert(q =~= s.take(i - lo + 1));
        if c < 48 || c > 57 {
            assert(!is_digit(s[i - lo]));
            return None;
        }
        assert(all_digits(q)) by {
            assert forall|j: int| 0 <= j < q.len() implies #[trigger] is_digit(q[j]) by {
                if j < p.len() {
                    assert(q[j] == p[j]);
                    assert(is_digit(p[j]));
                }
            }
        }
        let d = (c - 48) as u64;
        if v > (u64::MAX - d) / 10 {
            assert(digits_value(q) > u64::MAX) by (nonlinear_arith)
                requires
                    v > (u64::MAX - d) / 10,
                    digits_value(q) == v * 10 + d,
            ;
            proof {
                if all_digits(s) {
                    lemma_prefix_value_le(s, i - lo + 1);
                }
            }
            return None;
        }
        assert(v * 10 + d <= u64::MAX) by (nonlinear_arith)
            requires
                v <= (u64::MAX - d) / 10,
                d <= 9,
        ;
        v = v * 10 + d;
        i = i + 1;
    }
    assert(b@.subrange(lo as int, i as int) =~= s);
    Some(v)
}

/// Reads a range header value of the form `bytes=a-b`, `bytes=a-` or `bytes=-n`.
pub fn parse_range_header(v: &[u8]) -> (r: Option<ByteRangeSpec>)
    ensures
        r == range_header_of(v@),
{
    if v.len() < 6 || v[0] != 98 || v[1] != 121 || v[2] != 116 || v[3] != 101 || v[4] != 115
        || v[5] != 61 {
        proof {
            if v@.len() >= 6 {
                assert(v@.take(6)[0] == v@[0]);
                assert(v@.take(6)[1] == v@[1]);
                assert(v@.take(6)[2] == v@[2]);
                assert(v@.take(6)[3] == v@[3]);
                assert(v@.take(6)[4] == v@[4]);
                assert(v@.take(6)[5] == v@[5]);
            }
        }
        return None;
    }
    assert(v@.take(6) =~= bytes_unit());
    let ghost b = v@.skip(6);
    let n = v.len();
    let mut i: usize = 6;
    while i < n && v[i] != DASH
        invariant
            6 <= i <= n == v@.len(),
            b == v@.skip(6),
            forall|j: int| 0 <= j < i - 6 ==> b[j] != DASH,
        decreases n - i,
    {
        i = i + 1;
    }
    if i == n {
        assert(!exists|k: int| is_first_dash(b, k));
        return None;
    }
    let ghost k = i - 6;
    assert(is_first_dash(b, k));
    let ghost c = choose|c: int| is_first_dash(b, c);
    assert(c == k) by {
        if c < k {
            assert(b[c] != DASH);
        } else if c > k {
            assert(b[k] != DASH);
        }
    }
    assert(b.take(k) =~= v@.subrange(6, i as int));
    assert(b.skip(k + 1) =~= v@.subrange(i + 1, n as int));
    if i == 6 {
        match parse_number(v, i + 1, n) {
            Some(m) => Some(ByteRangeSpec::Suffix(m)),
            None => None,
        }
    } else if i + 1 == n {
        match parse_number(v, 6, i) {
            Some(a) => Some(ByteRangeSpec::From(a)),
            None => None,
        }
    } else {
        let a = parse_number(v, 6, i);
        let z = parse_number(v, i + 1, n);
        match (a, z) {
            (Some(a), Some(z)) => Some(ByteRangeSpec::FromTo(a, z)),
            _ => None,
        }
    }
}

/// The interval `[start, end)` that a range selects from `len` bytes.
pub fn range_interval(r: ByteRangeSpec, len: u64) -> (res: Result<(u64, u64), BadRangeError>)
    ensures
        match interval_of(r, len as nat) {
            Some((s, e)) => res == Ok::<(u64, u64), BadRangeError>((s as u64, e as u64)),
            None => res == Err::<(u64, u64), BadRangeError>(BadRangeError),
        },
{
    match r {
        ByteRangeSpec::FromTo(a, z) => {
            if a > z || a >= len {
                Err(BadRangeError)
            } else if z < len - 1 {
                Ok((a, z + 1))
            } else {
                Ok((a, len))
            }
        },
        ByteRangeSpec::From(a) => {
            if a >= len {
                Err(BadRangeError)
            } else {
                Ok((a, len))
            }
        },
        ByteRangeSpec::Suffix(n) => {
            if n == 0 || len == 0 {
                Err(BadRangeError)
            } else if n < len {
                Ok((len - n, len))
            } else {
                Ok((0, len))
            }
        },
    }
}

/// The interval `[start, end)` of `len` bytes that a request's range header selects:
/// everything without a header, an error for a malformed or unsatisfiable one.
pub fn bytes_range(range: Option<&[u8]>, len: u64) -> (res: Result<(u64, u64), BadRangeError>)
    ensures
        match bytes_range_of(
            match range {
                Some(v) => Some(v@),
                None => None,
            },
            len as nat,
        ) {
            Some((s, e)) => res == Ok::<(u64, u64), BadRangeError>((s as u64, e as u64)),
            None => res == Err::<(u64, u64), BadRangeError>(BadRangeError),
        },
        res matches Ok((s, e)) ==> s < e <= len || (s == 0 && e == len),
{
    match range {
        None => Ok((0, len)),
        Some(v) => match parse_range_header(v) {
            Some(r) => range_interval(r, len),
            None => Err(BadRangeError),
        },
    }
}

/// The outcome of a request's conditional headers.
#[derive(Clone, Copy, Debug, PartialEq, Eq, Structural)]
pub enum ConditionalOutcome {
    /// `304 Not Modified`, with no body.
    NotModified,
    /// `412 Precondition Failed`, with no body.
    PreconditionFailed,
    /// A response with a body; the flag says whether the `Range` header applies.
    WithBody(bool),
}

/// Conditional headers of a request, as seconds since the Unix epoch.
#[derive(Clone, Copy, Debug, PartialEq, Eq, Structural)]
pub struct ConditionalHeaders {
    pub if_modified_since: Option<u64>,
    pub if_unmodified_since: Option<u64>,
    pub if_range: Option<u64>,
}

/// HTTP conditional evaluation against a last-modified time: a failed
/// `If-Unmodified-Since` gives 412, an `If-Modified-Since` at or after the
/// modification gives 304, and an `If-Range` before it makes the range ignored.
pub open spec fn conditional_of(h: ConditionalHeaders, modified: Option<u64>) -> ConditionalOutcome {
    if h.if_unmodified_since is Some && !(modified is Some && modified->0
        <= h.if_unmodified_since->0) {
        ConditionalOutcome::PreconditionFailed
    } else if h.if_modified_since is Some && modified is Some && modified->0
        <= h.if_modified_since->0 {
        ConditionalOutcome::NotModified
    } else if h.if_range is Some && !(modified is Some && modified->0 <= h.if_range->0) {
        ConditionalOutcome::WithBody(false)
    } else {
        ConditionalOutcome::WithBody(true)
    }
}

impl ConditionalHeaders {
    /// Evaluates the conditional headers against the resource's last-modified time.
    pub fn check(&self, modified: Option<u64>) -> (r: ConditionalOutcome)
        ensures
            r == conditional_of(*self, modified),
    {
        if let Some(since) = self.if_unmodified_since {
            let passes = match modified {
                Some(time) => time <= since,
                None => false,
            };
            if !passes {
                return ConditionalOutcome::PreconditionFailed;
            }
        }
        if let Some(since) = self.if_modified_since {
            if let Some(time) = modified {
                if time <= since {
                    return ConditionalOutcome::NotModified;
                }
            }
        }
        if let Some(since) = self.if_range {
            let unmodified = match modified {
                Some(time) => time <= since,
                None => false,
            };
            if !unmodified {
                return ConditionalOutcome::WithBody(false);
            }
        }
        ConditionalOutcome::WithBody(true)
    }
}

} // verus!
