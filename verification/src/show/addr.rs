//! Line / uuid / turn addressing for `show`: the parsed `--line` specs, the unit cap,
//! and the turn address-miss message.

use vstd::prelude::*;
use crate::chars::{push_decimal, decimal, to_chars};
use crate::range::{Endpoint, RangeSpec, endpoint_at, parse_range_spec, spec_parse_range, trimmed, trim_chars};
use crate::search::excerpt::{contains_chars, has_sub};

verus! {

/// Every addressed line of the explicit singletons and the inclusive ranges.
pub open spec fn addressed(explicit: Seq<usize>, ranges: Seq<(usize, usize)>, n: usize) -> bool {
    explicit.contains(n) || exists|k: int| 0 <= k < ranges.len() && #[trigger] ranges[k].0 <= n <= ranges[k].1
}

/// Strictly ascending.
pub open spec fn ascending(s: Seq<usize>) -> bool {
    forall|i: int, j: int| 0 <= i < j < s.len() ==> s[i] < s[j]
}

/// Parsed `--line` tokens: the explicit singletons (a miss is a hard error) and the
/// inclusive ranges (each clamps, but must yield at least one record).
#[derive(Debug, Clone)]
pub struct LineSpecs {
    pub explicit: Vec<usize>,
    pub ranges: Vec<(usize, usize)>,
}

/// Insert `n` into an ascending list, keeping it ascending and duplicate-free.
pub fn insert_sorted(v: &mut Vec<usize>, n: usize)
    requires
        ascending(old(v)@),
    ensures
        ascending(final(v)@),
        forall|x: usize| final(v)@.contains(x) <==> (old(v)@.contains(x) || x == n),
{
    let ghost before = v@;
    let mut i: usize = 0;
    while i < v.len() && v[i] < n
        invariant
            i <= v@.len(),
            ascending(v@),
            v@ == before,
            forall|k: int| 0 <= k < i ==> v@[k] < n,
        decreases v.len() - i,
    {
        i = i + 1;
    }
    if i < v.len() && v[i] == n {
        assert(v@[i as int] == n);
        assert(v@.contains(n));
        return;
    }
    v.insert(i, n);
    assert forall|x: usize| v@.contains(x) <==> (before.contains(x) || x == n) by {
        if v@.contains(x) {
            let k = choose|k: int| 0 <= k < v@.len() && v@[k] == x;
            if k < i {
                assert(before[k] == x);
            } else if k > i {
                assert(before[k - 1] == x);
            }
        }
        if before.contains(x) {
            let k = choose|k: int| 0 <= k < before.len() && before[k] == x;
            if k < i {
                assert(v@[k] == x);
            } else {
                assert(v@[k + 1] == x);
            }
        }
        if x == n {
            assert(v@[i as int] == n);
        }
    }
    assert forall|a: int, b: int| 0 <= a < b < v@.len() implies v@[a] < v@[b] by {
        if b < i {
            assert(v@[a] == before[a] && v@[b] == before[b]);
        } else if b == i {
            if a < i { assert(v@[a] == before[a]); }
        } else if a < i {
            assert(v@[a] == before[a] && v@[b] == before[b - 1]);
            if i < before.len() { assert(before[i as int] > n || before[i as int] == n); }
        } else if a == i {
            assert(v@[b] == before[b - 1]);
            assert(before[i as int] >= n);
        } else {
            assert(v@[a] == before[a - 1] && v@[b] == before[b - 1]);
        }
    }
}

impl LineSpecs {
    /// No address.
    pub fn new() -> (s: LineSpecs)
        ensures
            s.explicit@.len() == 0,
            s.ranges@.len() == 0,
    {
        LineSpecs { explicit: Vec::new(), ranges: Vec::new() }
    }

    /// Every addressed line (ranges expanded), ascending and without duplicates.
    pub fn all(&self) -> (out: Vec<usize>)
        ensures
            ascending(out@),
            forall|n: usize| out@.contains(n) <==> addressed(self.explicit@, self.ranges@, n),
    {
        let mut out: Vec<usize> = Vec::new();
        let mut i: usize = 0;
        while i < self.explicit.len()
            invariant
                i <= self.explicit@.len(),
                ascending(out@),
                forall|n: usize| out@.contains(n) <==> exists|k: int| 0 <= k < i && self.explicit@[k] == n,
            decreases self.explicit.len() - i,
        {
            insert_sorted(&mut out, self.explicit[i]);
            i = i + 1;
        }
        let mut r: usize = 0;
        while r < self.ranges.len()
            invariant
                r <= self.ranges@.len(),
                ascending(out@),
                forall|n: usize| out@.contains(n) <==> (self.explicit@.contains(n)
                    || exists|k: int| 0 <= k < r && #[trigger] self.ranges@[k].0 <= n <= self.ranges@[k].1),
            decreases self.ranges.len() - r,
        {
            let (a, b) = self.ranges[r];
            let ghost start = out@;
            if a <= b {
                let mut x = a;
                while x < b
                    invariant
                        a <= x <= b,
                        ascending(out@),
                        forall|n: usize| out@.contains(n) <==> (start.contains(n) || (a <= n < x)),
                    decreases b - x,
                {
                    insert_sorted(&mut out, x);
                    x = x + 1;
                }
                insert_sorted(&mut out, b);
            }
            assert forall|n: usize| out@.contains(n) <==> (start.contains(n) || (a <= n && n <= b)) by {}
            assert forall|n: usize| out@.contains(n) <==> (self.explicit@.contains(n)
                || exists|k: int| 0 <= k < r + 1 && #[trigger] self.ranges@[k].0 <= n <= self.ranges@[k].1) by {
                if a <= n <= b {
                    assert(self.ranges@[r as int].0 <= n <= self.ranges@[r as int].1);
                }
                if exists|k: int| 0 <= k < r + 1 && #[trigger] self.ranges@[k].0 <= n <= self.ranges@[k].1 {
                    let k = choose|k: int| 0 <= k < r + 1 && #[trigger] self.ranges@[k].0 <= n <= self.ranges@[k].1;
                    if k < r {
                        assert(exists|k: int| 0 <= k < r && #[trigger] self.ranges@[k].0 <= n <= self.ranges@[k].1);
                        assert(start.contains(n));
                    } else {
                        assert(a <= n && n <= b);
                    }
                }
                if start.contains(n) {
                    if !self.explicit@.contains(n) {
                        let k = choose|k: int| 0 <= k < r && #[trigger] self.ranges@[k].0 <= n <= self.ranges@[k].1;
                        assert(0 <= k < r + 1 && self.ranges@[k].0 <= n <= self.ranges@[k].1);
                    }
                }
            }
            r = r + 1;
        }
        out
    }
}

/// The parse of the `--line` tokens: blank tokens skipped; each other token with whether
/// it is explicit (no `..`) and its range; the first malformed token refuses the whole.
pub open spec fn spec_parse_line_specs(tokens: Seq<String>) -> Option<Seq<(bool, RangeSpec)>>
    decreases tokens.len(),
{
    if tokens.len() == 0 {
        Some(Seq::empty())
    } else {
        match spec_parse_line_specs(tokens.drop_last()) {
            None => None,
            Some(prev) => {
                let t = trimmed(tokens.last()@);
                if t.len() == 0 {
                    Some(prev)
                } else {
                    match spec_parse_range(trimmed(t), true) {
                        Some(sp) => Some(prev.push((!has_sub(t, ".."@), sp))),
                        None => None,
                    }
                }
            }
        }
    }
}

proof fn lemma_parse_none_sticks(tokens: Seq<String>, m: int)
    requires
        0 <= m <= tokens.len(),
        spec_parse_line_specs(tokens.take(m)) is None,
    ensures
        spec_parse_line_specs(tokens) is None,
    decreases tokens.len() - m,
{
    if m < tokens.len() {
        assert(tokens.take(m + 1).drop_last() =~= tokens.take(m));
        lemma_parse_none_sticks(tokens, m + 1);
    } else {
        assert(tokens.take(m) =~= tokens);
    }
}

/// Parse `--line` tokens into `(is_explicit, range)` pairs with the shared range grammar;
/// a single token (no `..`) is an explicit address, a `..` token a clamping range.
pub fn parse_line_specs(tokens: &Vec<String>) -> (r: Result<Vec<(bool, RangeSpec)>, String>)
    ensures
        r is Ok <==> spec_parse_line_specs(tokens@) is Some,
        r matches Ok(v) ==> spec_parse_line_specs(tokens@) == Some(v@),
{
    let mut out: Vec<(bool, RangeSpec)> = Vec::new();
    let mut i: usize = 0;
    let dots = to_chars("..");
    while i < tokens.len()
        invariant
            i <= tokens@.len(),
            dots@ == ".."@,
            spec_parse_line_specs(tokens@.take(i as int)) == Some(out@),
        decreases tokens.len() - i,
    {
        assert(tokens@.take(i as int + 1).drop_last() =~= tokens@.take(i as int));
        let raw = to_chars(tokens[i].as_str());
        let t = trim_chars(raw.as_slice());
        if t.len() > 0 {
            let is_explicit = !contains_chars(t.as_slice(), dots.as_slice());
            let ts = crate::chars::from_chars(t.as_slice());
            match parse_range_spec(ts.as_str(), "--line", true) {
                Ok(sp) => out.push((is_explicit, sp)),
                Err(e) => {
                    proof { lemma_parse_none_sticks(tokens@, i as int + 1); }
                    return Err(e);
                },
            }
        }
        i = i + 1;
    }
    assert(tokens@.take(tokens.len() as int) =~= tokens@);
    Ok(out)
}

/// The addresses the parsed specs give over `total` lines: explicit singletons (their
/// start) and ranges, each in token order.
pub open spec fn spec_resolved(parsed: Seq<(bool, RangeSpec)>, total: nat) -> (Seq<usize>, Seq<(usize, usize)>)
    decreases parsed.len(),
{
    if parsed.len() == 0 {
        (Seq::empty(), Seq::empty())
    } else {
        let prev = spec_resolved(parsed.drop_last(), total);
        let (e, sp) = parsed.last();
        let lo = endpoint_at(sp.start, total, true, true) as usize;
        let hi = endpoint_at(sp.end, total, true, false) as usize;
        if e { (prev.0.push(lo), prev.1) } else { (prev.0, prev.1.push((lo, hi))) }
    }
}

/// Resolve parsed `--line` specs against the transcript's (1-based) line count: an
/// explicit token becomes a singleton address, a range token a clamping range.
pub fn resolve_line_specs(parsed: &Vec<(bool, RangeSpec)>, total_lines: usize) -> (s: LineSpecs)
    ensures
        s.explicit@ == spec_resolved(parsed@, total_lines as nat).0,
        s.ranges@ == spec_resolved(parsed@, total_lines as nat).1,
{
    let mut specs = LineSpecs::new();
    let mut i: usize = 0;
    while i < parsed.len()
        invariant
            i <= parsed@.len(),
            specs.explicit@ == spec_resolved(parsed@.take(i as int), total_lines as nat).0,
            specs.ranges@ == spec_resolved(parsed@.take(i as int), total_lines as nat).1,
        decreases parsed.len() - i,
    {
        assert(parsed@.take(i as int + 1).drop_last() =~= parsed@.take(i as int));
        let (is_explicit, spec) = parsed[i];
        let (lo, hi) = spec.resolve(total_lines, true);
        if is_explicit {
            specs.explicit.push(lo);
        } else {
            specs.ranges.push((lo, hi));
        }
        i = i + 1;
    }
    assert(parsed@.take(parsed.len() as int) =~= parsed@);
    specs
}

/// The default cap on emitted record units.
pub const DEFAULT_SHOW_CAP: usize = 200;

/// The unit cap `--max-count` sets.
pub open spec fn spec_cap(max_count: Option<usize>) -> usize {
    match max_count {
        Some(0) => usize::MAX,
        Some(n) => n,
        None => DEFAULT_SHOW_CAP,
    }
}

/// The effective unit cap: an explicit `N` wins, `0` lifts the cap, absent is the default.
pub fn effective_cap(max_count: Option<usize>) -> (c: usize)
    ensures
        c == spec_cap(max_count),
{
    match max_count {
        Some(0) => usize::MAX,
        Some(n) => n,
        None => DEFAULT_SHOW_CAP,
    }
}

/// A `--turn` spec is an address (both endpoints absolute) rather than a clamping form.
pub fn turn_spec_is_explicit(spec: &RangeSpec) -> (b: bool)
    ensures
        b == (spec.start is At && spec.end is At),
{
    matches!(spec.start, Endpoint::At(_)) && matches!(spec.end, Endpoint::At(_))
}

/// How the missed turns are named.
pub open spec fn shown_turns(spec: RangeSpec) -> Seq<char> {
    match (spec.start, spec.end) {
        (Endpoint::At(a), Endpoint::At(b)) => if a == b {
            seq!['t'] + decimal(a as nat)
        } else {
            seq!['t'] + decimal(a as nat) + "..t"@ + decimal(b as nat)
        },
        _ => "the requested turn range"@,
    }
}

/// The transcript's turn domain, as the miss message states it.
pub open spec fn turn_domain(n: nat) -> Seq<char> {
    if n == 0 {
        "the transcript has 0 turns"@
    } else {
        "the transcript has "@ + decimal(n) + " turn(s) (t0..t"@ + decimal((n - 1) as nat) + ")"@
    }
}

/// The turn address-miss message.
pub open spec fn spec_turn_miss(spec: RangeSpec, n: nat) -> Seq<char> {
    "no such turn(s): "@ + shown_turns(spec) + " — "@ + turn_domain(n)
        + "; turn indices are 0-based (the `tN` search prints), and the last k turns are `--turn -k..`"@
}

/// The turn address-miss error: names the missed turn(s) and the transcript's actual
/// turn domain.
pub fn turn_miss_error(spec: &RangeSpec, turn_count: usize) -> (m: String)
    ensures
        m@ == spec_turn_miss(*spec, turn_count as nat),
{
    let mut m = String::new();
    m.append("no such turn(s): ");
    match (spec.start, spec.end) {
        (Endpoint::At(a), Endpoint::At(b)) => {
            if a == b {
                m.append("t");
                push_decimal(&mut m, a as u64);
            } else {
                m.append("t");
                push_decimal(&mut m, a as u64);
                m.append("..t");
                push_decimal(&mut m, b as u64);
            }
        },
        _ => m.append("the requested turn range"),
    }
    m.append(" — ");
    if turn_count == 0 {
        m.append("the transcript has 0 turns");
    } else {
        m.append("the transcript has ");
        push_decimal(&mut m, turn_count as u64);
        m.append(" turn(s) (t0..t");
        push_decimal(&mut m, (turn_count - 1) as u64);
        m.append(")");
    }
    m.append("; turn indices are 0-based (the `tN` search prints), and the last k turns are `--turn -k..`");
    proof {
        reveal_strlit("no such turn(s): ");
        reveal_strlit("t");
        reveal_strlit("..t");
        reveal_strlit("the requested turn range");
        reveal_strlit(" — ");
        reveal_strlit("the transcript has 0 turns");
        reveal_strlit("the transcript has ");
        reveal_strlit(" turn(s) (t0..t");
        reveal_strlit(")");
    }
    assert(m@ =~= spec_turn_miss(*spec, turn_count as nat));
    m
}

} // verus!
