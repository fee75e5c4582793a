//! The range grammar shared by `--line` (1-based jsonl lines) and `--turn` (0-based
//! turn indices): `N` · `A..B` · `N..` · `..N` · `-k` (k-th from the end) · `-k..`
//! (the last k) · `..` (everything).

use vstd::prelude::*;
use crate::chars::{decimal, push_char, push_decimal, to_chars};

verus! {

/// One end of a range.
#[derive(Debug, Clone, Copy, PartialEq, Eq)]
pub enum Endpoint {
    /// An absolute index as written.
    At(usize),
    /// `k` back from the end (`-k`): the last item is `-1`.
    FromEnd(usize),
    /// Left unwritten: the start or the end of the domain.
    Open,
}

/// A parsed range, resolved per transcript against its own domain.
#[derive(Debug, Clone, Copy, PartialEq, Eq)]
pub struct RangeSpec {
    pub start: Endpoint,
    pub end: Endpoint,
}

pub open spec fn is_digit(c: char) -> bool {
    '0' <= c && c <= '9'
}

pub open spec fn all_digits(s: Seq<char>) -> bool {
    forall|i: int| 0 <= i < s.len() ==> is_digit(#[trigger] s[i])
}

/// The value of a run of decimal digits.
pub open spec fn digits_value(s: Seq<char>) -> nat
    decreases s.len(),
{
    if s.len() == 0 {
        0
    } else {
        digits_value(s.drop_last()) * 10 + ((s.last() as u32 - '0' as u32) as nat)
    }
}

/// A non-empty run of digits whose value fits `usize`.
pub open spec fn spec_parse_usize(s: Seq<char>) -> Option<usize> {
    if s.len() > 0 && all_digits(s) && digits_value(s) <= usize::MAX {
        Some(digits_value(s) as usize)
    } else {
        None
    }
}

proof fn lemma_digits_prefix_monotone(s: Seq<char>, i: int, j: int)
    requires
        0 <= i <= j <= s.len(),
        all_digits(s),
    ensures
        digits_value(s.take(i)) <= digits_value(s.take(j)),
    decreases j - i,
{
    if i < j {
        lemma_digits_prefix_monotone(s, i, j - 1);
        assert(s.take(j).drop_last() =~= s.take(j - 1));
    }
}

/// Parse a non-empty all-digit run into a `usize` (no sign, no overflow).
pub fn parse_usize(s: &[char]) -> (r: Option<usize>)
    ensures
        r == spec_parse_usize(s@),
{
    if s.len() == 0 {
        return None;
    }
    let mut v: usize = 0;
    let mut i: usize = 0;
    while i < s.len()
        invariant
            0 < s.len(),
            i <= s.len(),
            all_digits(s@.take(i as int)),
            v as nat == digits_value(s@.take(i as int)),
        decreases s.len() - i,
    {
        let c = s[i];
        if !('0' <= c && c <= '9') {
            assert(!is_digit(s@[i as int]));
            return None;
        }
        let d = (c as u32 - '0' as u32) as usize;
        assert(s@.take(i + 1).drop_last() =~= s@.take(i as int));
        if v > (usize::MAX - d) / 10 {
            proof {
                assert(digits_value(s@.take(i + 1)) > usize::MAX) by (nonlinear_arith)
                    requires
                        v > (usize::MAX - d) / 10,
                        d <= 9,
                        digits_value(s@.take(i + 1)) == v * 10 + d,
                ;
                if all_digits(s@) {
                    lemma_digits_prefix_monotone(s@, i + 1, s@.len() as int);
                    assert(s@.take(s@.len() as int) =~= s@);
                }
            }
            return None;
        }
        proof {
            assert(v * 10 + d <= usize::MAX) by (nonlinear_arith)
                requires
                    v <= (usize::MAX - d) / 10,
                    d <= 9,
            ;
        }
        v = v * 10 + d;
        i = i + 1;
        assert(all_digits(s@.take(i as int)));
    }
    assert(s@.take(s@.len() as int) =~= s@);
    Some(v)
}

/// The first index of `..` at or after `i`.
pub open spec fn first_dotdot_from(s: Seq<char>, i: int) -> Option<int>
    decreases s.len() - i,
{
    if i < 0 || i + 1 >= s.len() {
        None
    } else if s[i] == '.' && s[i + 1] == '.' {
        Some(i)
    } else {
        first_dotdot_from(s, i + 1)
    }
}

fn find_dotdot(s: &[char]) -> (r: Option<usize>)
    ensures
        r matches Some(p) ==> first_dotdot_from(s@, 0) == Some(p as int) && p + 1 < s@.len(),
        r is None ==> first_dotdot_from(s@, 0) is None,
{
    let mut i: usize = 0;
    while i < s.len() && i + 1 < s.len()
        invariant
            first_dotdot_from(s@, 0) == first_dotdot_from(s@, i as int),
        decreases s.len() - i,
    {
        if s[i] == '.' && s[i + 1] == '.' {
            return Some(i);
        }
        i = i + 1;
    }
    None
}

/// One endpoint as written: empty = open, `-k` (k >= 1) = from the end, `N` = at.
/// On a 1-based domain an absolute `0` names nothing and is refused.
pub open spec fn spec_parse_endpoint(a: Seq<char>, one_based: bool) -> Option<Endpoint> {
    if a.len() == 0 {
        Some(Endpoint::Open)
    } else if a[0] == '-' {
        match spec_parse_usize(a.drop_first()) {
            Some(k) if k >= 1 => Some(Endpoint::FromEnd(k)),
            _ => None,
        }
    } else {
        match spec_parse_usize(a) {
            Some(n) if !(one_based && n == 0) => Some(Endpoint::At(n)),
            _ => None,
        }
    }
}

/// Both ends absolute and the end before the start.
pub open spec fn reversed(start: Endpoint, end: Endpoint) -> bool {
    match (start, end) {
        (Endpoint::At(a), Endpoint::At(b)) => b < a,
        _ => false,
    }
}

/// The range a token denotes, or `None` when the token is malformed or reversed. A token
/// without `..` is a single address (`N`, or `-k` = the k-th from the end).
pub open spec fn spec_parse_range(t: Seq<char>, one_based: bool) -> Option<RangeSpec> {
    match first_dotdot_from(t, 0) {
        Some(p) => match (
            spec_parse_endpoint(t.take(p), one_based),
            spec_parse_endpoint(t.skip(p + 2), one_based),
        ) {
            (Some(s), Some(e)) if !reversed(s, e) => Some(RangeSpec { start: s, end: e }),
            _ => None,
        },
        None => if t.len() == 0 {
            None
        } else {
            match spec_parse_endpoint(t, one_based) {
                Some(e) => Some(RangeSpec { start: e, end: e }),
                None => None,
            }
        },
    }
}

fn parse_endpoint(a: &[char], one_based: bool) -> (r: Option<Endpoint>)
    ensures
        r == spec_parse_endpoint(a@, one_based),
{
    if a.len() == 0 {
        Some(Endpoint::Open)
    } else if a[0] == '-' {
        let rest = slice_from(a, 1);
        assert(rest@ =~= a@.drop_first());
        match parse_usize(&rest) {
            Some(k) if k >= 1 => Some(Endpoint::FromEnd(k)),
            _ => None,
        }
    } else {
        match parse_usize(a) {
            Some(n) if !(one_based && n == 0) => Some(Endpoint::At(n)),
            _ => None,
        }
    }
}

/// `a[from..]` as an owned vector.
pub fn slice_from(a: &[char], from: usize) -> (v: Vec<char>)
    requires
        from <= a.len(),
    ensures
        v@ == a@.skip(from as int),
{
    slice_range(a, from, a.len())
}

/// `a[from..to]` as an owned vector.
pub fn slice_range(a: &[char], from: usize, to: usize) -> (v: Vec<char>)
    requires
        from <= to <= a.len(),
    ensures
        v@ == a@.subrange(from as int, to as int),
{
    let mut v: Vec<char> = Vec::new();
    let mut i = from;
    while i < to
        invariant
            from <= i <= to,
            to <= a.len(),
            v@ == a@.subrange(from as int, i as int),
        decreases to - i,
    {
        v.push(a[i]);
        i = i + 1;
        assert(v@ =~= a@.subrange(from as int, i as int));
    }
    v
}

/// Unicode-whitespace trim of both ends (what `str::trim` does).
pub open spec fn trimmed(s: Seq<char>) -> Seq<char>
    decreases s.len(),
{
    if s.len() > 0 && crate::chars::is_ws(s[0]) {
        trimmed(s.drop_first())
    } else if s.len() > 0 && crate::chars::is_ws(s.last()) {
        trimmed(s.drop_last())
    } else {
        s
    }
}

/// Char-slice trim with the [`trimmed`] contract.
pub fn trim_chars(s: &[char]) -> (v: Vec<char>)
    ensures
        v@ == trimmed(s@),
{
    let mut lo: usize = 0;
    let mut hi: usize = s.len();
    assert(s@.subrange(0, s@.len() as int) =~= s@);
    while lo < hi && crate::chars::is_whitespace(s[lo])
        invariant
            lo <= hi <= s.len(),
            hi == s.len(),
            trimmed(s@) == trimmed(s@.subrange(lo as int, hi as int)),
        decreases hi - lo,
    {
        assert(s@.subrange(lo as int, hi as int).drop_first() =~= s@.subrange(lo + 1, hi as int));
        lo = lo + 1;
    }
    // Either empty or the first char is not whitespace: now trim the back.
    while lo < hi && crate::chars::is_whitespace(s[hi - 1])
        invariant
            lo <= hi <= s.len(),
            trimmed(s@) == trimmed(s@.subrange(lo as int, hi as int)),
            lo < hi ==> !crate::chars::is_ws(s@[lo as int]),
        decreases hi - lo,
    {
        let ghost sub = s@.subrange(lo as int, hi as int);
        assert(sub.drop_last() =~= s@.subrange(lo as int, hi - 1));
        if lo + 1 < hi {
            assert(!crate::chars::is_ws(sub[0]));
        } else {
            assert(sub.len() == 1);
            assert(sub[0] == sub.last());
        }
        hi = hi - 1;
    }
    slice_range(s, lo, hi)
}

/// Parse one `--line`/`--turn` token (whitespace-trimmed) into a [`RangeSpec`]; a
/// malformed or reversed token is refused with a message naming the flag.
pub fn parse_range_spec(t: &str, flag: &str, one_based: bool) -> (r: Result<RangeSpec, String>)
    ensures
        r is Ok <==> spec_parse_range(trimmed(t@), one_based) is Some,
        r matches Ok(spec) ==> spec_parse_range(trimmed(t@), one_based) == Some(spec),
{
    let raw = to_chars(t);
    let tok = trim_chars(raw.as_slice());
    let parsed = match find_dotdot(tok.as_slice()) {
        Some(p) => {
            let a = slice_range(tok.as_slice(), 0, p);
            let b = slice_from(tok.as_slice(), p + 2);
            assert(a@ =~= tok@.take(p as int));
            match (parse_endpoint(a.as_slice(), one_based), parse_endpoint(b.as_slice(), one_based)) {
                (Some(s), Some(e)) => {
                    let rev = match (s, e) {
                        (Endpoint::At(x), Endpoint::At(y)) => y < x,
                        _ => false,
                    };
                    if rev {
                        return Err(range_error(t, flag, true));
                    }
                    Some(RangeSpec { start: s, end: e })
                },
                _ => None,
            }
        },
        None => {
            if tok.len() == 0 {
                None
            } else {
                match parse_endpoint(tok.as_slice(), one_based) {
                    Some(e) => Some(RangeSpec { start: e, end: e }),
                    None => None,
                }
            }
        },
    };
    match parsed {
        Some(spec) => Ok(spec),
        None => Err(range_error(t, flag, false)),
    }
}

/// The refusal message for a malformed (`reversed == false`) or reversed token.
pub open spec fn range_message(t: Seq<char>, flag: Seq<char>, reversed: bool) -> Seq<char> {
    "invalid "@ + flag + " value '"@ + t + if reversed {
        "': the range ends before it starts"@
    } else {
        "': expected N, A..B, N.., ..N, -k or -k.."@
    }
}

/// See [`range_message`].
pub fn range_error(t: &str, flag: &str, reversed: bool) -> (msg: String)
    ensures
        msg@ == range_message(t@, flag@, reversed),
{
    proof {
        reveal_strlit("");
        reveal_strlit("invalid ");
        reveal_strlit(" value '");
        reveal_strlit("': the range ends before it starts");
        reveal_strlit("': expected N, A..B, N.., ..N, -k or -k..");
    }
    let mut m = String::new();
    m.append("invalid ");
    m.append(flag);
    m.append(" value '");
    m.append(t);
    if reversed {
        m.append("': the range ends before it starts");
    } else {
        m.append("': expected N, A..B, N.., ..N, -k or -k..");
    }
    assert(m@ =~= range_message(t@, flag@, reversed));
    m
}

/// Where one endpoint lands in a domain of `total` items: absolute as written;
/// `-k` counts back from the last item (clamped to the first); open = the domain edge.
pub open spec fn endpoint_at(e: Endpoint, total: nat, one_based: bool, is_start: bool) -> int {
    match e {
        Endpoint::At(n) => n as int,
        Endpoint::FromEnd(k) => {
            // `-0` never parses; a hand-built `FromEnd(0)` reads as `-1`.
            let k = if k == 0 { 1 } else { k as int };
            if one_based {
                if k >= total { 1 } else { total - k + 1 }
            } else {
                if k >= total { 0 } else { total - k }
            }
        },
        Endpoint::Open => if is_start {
            if one_based { 1 } else { 0 }
        } else {
            if one_based { total as int } else if total == 0 { 0 } else { total - 1 }
        },
    }
}

/// `-k` (with `1 <= k <= total`) counts back from the last item: over 0-based turns it is
/// turn `total - k` (so `-1` is the last turn), over 1-based lines it is line
/// `total - k + 1` (so `-1` is the last line); and `-k..` spans exactly `k` items.
pub proof fn lemma_from_end_counts_back(k: usize, total: nat, is_start: bool)
    requires
        1 <= k <= total,
    ensures
        endpoint_at(Endpoint::FromEnd(k), total, false, is_start) == total - k,
        endpoint_at(Endpoint::FromEnd(k), total, true, is_start) == total - k + 1,
        endpoint_at(Endpoint::FromEnd(1), total, false, is_start) == total - 1,
        endpoint_at(Endpoint::FromEnd(1), total, true, is_start) == total,
        endpoint_at(Endpoint::Open, total, false, false) - endpoint_at(Endpoint::FromEnd(k), total, false, true) + 1 == k,
        endpoint_at(Endpoint::Open, total, true, false) - endpoint_at(Endpoint::FromEnd(k), total, true, true) + 1 == k,
{
}

fn resolve_endpoint(e: Endpoint, total: usize, one_based: bool, is_start: bool) -> (r: usize)
    ensures
        r as int == endpoint_at(e, total as nat, one_based, is_start),
        e matches Endpoint::FromEnd(k) ==> (1 <= k <= total && !one_based ==> r == total - k),
        e matches Endpoint::FromEnd(k) ==> (1 <= k <= total && one_based ==> r == total - k + 1),
{
    match e {
        Endpoint::At(n) => n,
        Endpoint::FromEnd(k) => {
            let k = if k == 0 { 1 } else { k };
            if one_based {
                if k >= total { 1 } else { total - k + 1 }
            } else {
                if k >= total { 0 } else { total - k }
            }
        },
        Endpoint::Open => if is_start {
            if one_based { 1 } else { 0 }
        } else {
            if one_based { total } else if total == 0 { 0 } else { total - 1 }
        },
    }
}

impl RangeSpec {
    /// Materialize against a domain of `total` items (1-based lines or 0-based turns):
    /// the inclusive `(lo, hi)` pair. Absolute endpoints are kept as written (the caller
    /// reports what lies outside the domain).
    pub fn resolve(&self, total: usize, one_based: bool) -> (r: (usize, usize))
        ensures
            r.0 as int == endpoint_at(self.start, total as nat, one_based, true),
            r.1 as int == endpoint_at(self.end, total as nat, one_based, false),
            self.start matches Endpoint::FromEnd(k) ==> (1 <= k <= total && !one_based ==> r.0 == total - k),
            self.start matches Endpoint::FromEnd(k) ==> (1 <= k <= total && one_based ==> r.0 == total - k + 1),
            self.end matches Endpoint::FromEnd(k) ==> (1 <= k <= total && !one_based ==> r.1 == total - k),
            self.end matches Endpoint::FromEnd(k) ==> (1 <= k <= total && one_based ==> r.1 == total - k + 1),
            self.start matches Endpoint::FromEnd(k) ==> (1 <= k <= total && self.end is Open
                ==> r.1 - r.0 + 1 == k),
    {
        (
            resolve_endpoint(self.start, total, one_based, true),
            resolve_endpoint(self.end, total, one_based, false),
        )
    }
}

} // verus!
