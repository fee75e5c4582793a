//! The combined timeline of a search: every file's exchanges in one stable
//! chronological order (timestamp-less exchanges last), the signed `--max-count`
//! window, and the totals the banner and footer report.

use vstd::prelude::*;
use crate::model::opt_view;
use crate::search::census::{distinct_ids, distinct_session_count};
use crate::search::types::{ChainCounts, Exchange, SearchOutcome};
use crate::show::plan::{lemma_lex_total, lemma_lex_trans};
use crate::subagent::{lex_le, str_le};

verus! {

/// Timeline order of two start stamps: stamped before unstamped, stamps as text.
pub open spec fn ts_le(a: Option<Seq<char>>, b: Option<Seq<char>>) -> bool {
    match (a, b) {
        (Some(x), Some(y)) => lex_le(x, y),
        (Some(_), None) => true,
        (None, Some(_)) => false,
        (None, None) => true,
    }
}

pub open spec fn key(e: Exchange) -> Option<Seq<char>> {
    opt_view(e.started_utc)
}

/// Where `x` goes in a timeline: after every exchange not later than it.
pub open spec fn insert_at(s: Seq<Exchange>, x: Exchange) -> int
    decreases s.len(),
{
    if s.len() == 0 {
        0
    } else if ts_le(key(s.last()), key(x)) {
        s.len() as int
    } else {
        insert_at(s.drop_last(), x)
    }
}

/// The stable chronological order of `s` (insertion order kept among equal stamps).
pub open spec fn timeline(s: Seq<Exchange>) -> Seq<Exchange>
    decreases s.len(),
{
    if s.len() == 0 {
        Seq::empty()
    } else {
        let t = timeline(s.drop_last());
        t.insert(insert_at(t, s.last()), s.last())
    }
}

/// In timeline order.
pub open spec fn chronological(s: Seq<Exchange>) -> bool {
    forall|i: int, j: int| 0 <= i < j < s.len() ==> ts_le(key(s[i]), key(s[j]))
}

proof fn lemma_ts_total(a: Option<Seq<char>>, b: Option<Seq<char>>)
    ensures
        ts_le(a, b) || ts_le(b, a),
{
    if a is Some && b is Some {
        lemma_lex_total(a->0, b->0);
    }
}

proof fn lemma_ts_trans(a: Option<Seq<char>>, b: Option<Seq<char>>, c: Option<Seq<char>>)
    requires
        ts_le(a, b),
        ts_le(b, c),
    ensures
        ts_le(a, c),
{
    if a is Some && b is Some && c is Some {
        lemma_lex_trans(a->0, b->0, c->0);
    }
}

proof fn lemma_insert_at_bounds(s: Seq<Exchange>, x: Exchange)
    ensures
        0 <= insert_at(s, x) <= s.len(),
        forall|k: int| insert_at(s, x) <= k < s.len() ==> !ts_le(key(#[trigger] s[k]), key(x)),
        insert_at(s, x) > 0 ==> ts_le(key(s[insert_at(s, x) - 1]), key(x)),
    decreases s.len(),
{
    if s.len() > 0 && !ts_le(key(s.last()), key(x)) {
        lemma_insert_at_bounds(s.drop_last(), x);
        assert forall|k: int| insert_at(s, x) <= k < s.len() implies !ts_le(key(#[trigger] s[k]), key(x)) by {
            if k < s.len() - 1 {
                assert(s[k] == s.drop_last()[k]);
            }
        }
    }
}

/// The timeline is in chronological order and keeps every exchange.
pub proof fn lemma_timeline_sorted(s: Seq<Exchange>)
    ensures
        chronological(timeline(s)),
        timeline(s).len() == s.len(),
    decreases s.len(),
{
    if s.len() > 0 {
        lemma_timeline_sorted(s.drop_last());
        let t = timeline(s.drop_last());
        let x = s.last();
        let p = insert_at(t, x);
        lemma_insert_at_bounds(t, x);
        let u = t.insert(p, x);
        assert forall|i: int, j: int| 0 <= i < j < u.len() implies ts_le(key(u[i]), key(u[j])) by {
            if j < p {
                assert(u[i] == t[i] && u[j] == t[j]);
            } else if j == p {
                assert(u[j] == x);
                assert(u[i] == t[i]);
                if i < p - 1 {
                    lemma_ts_trans(key(t[i]), key(t[p - 1]), key(x));
                }
            } else if i == p {
                assert(u[i] == x && u[j] == t[j - 1]);
                lemma_ts_total(key(t[j - 1]), key(x));
            } else if i < p {
                assert(u[i] == t[i] && u[j] == t[j - 1]);
            } else {
                assert(u[i] == t[i - 1] && u[j] == t[j - 1]);
            }
        }
    }
}

fn ts_le_exec(a: &Option<String>, b: &Option<String>) -> (r: bool)
    ensures
        r == ts_le(opt_view(*a), opt_view(*b)),
{
    match (a, b) {
        (Some(x), Some(y)) => str_le(x.as_str(), y.as_str()),
        (Some(_), None) => true,
        (None, Some(_)) => false,
        (None, None) => true,
    }
}

/// Sort exchanges into the stable chronological timeline.
pub fn sort_timeline(all: Vec<Exchange>) -> (out: Vec<Exchange>)
    ensures
        out@ == timeline(all@),
{
    let mut rest = all;
    let ghost orig = rest@;
    let mut rev: Vec<Exchange> = Vec::new();
    while rest.len() > 0
        invariant
            orig == rest@ + rev@.reverse(),
        decreases rest.len(),
    {
        let ghost r0 = rest@;
        let ghost v0 = rev@;
        let x = rest.pop().unwrap();
        rev.push(x);
        assert(rev@.reverse() =~= seq![x] + v0.reverse());
        assert(r0 =~= rest@.push(x));
        assert(orig =~= rest@ + rev@.reverse());
    }
    let mut out: Vec<Exchange> = Vec::new();
    let ghost mut done: Seq<Exchange> = Seq::empty();
    assert(orig =~= rev@.reverse());
    while rev.len() > 0
        invariant
            orig == done + rev@.reverse(),
            out@ == timeline(done),
        decreases rev.len(),
    {
        let ghost v0 = rev@;
        let x = rev.pop().unwrap();
        assert(v0.reverse() =~= seq![x] + rev@.reverse());
        let mut p = out.len();
        assert(out@.take(p as int) =~= out@);
        while p > 0 && !ts_le_exec(&out[p - 1].started_utc, &x.started_utc)
            invariant
                p <= out@.len(),
                insert_at(out@, x) == insert_at(out@.take(p as int), x),
            decreases p,
        {
            assert(out@.take(p as int).drop_last() =~= out@.take(p - 1));
            p = p - 1;
        }
        assert(insert_at(out@, x) == p as int) by {
            if p > 0 {
                assert(out@.take(p as int).last() == out@[p - 1]);
            }
        }
        out.insert(p, x);
        proof {
            let d2 = done.push(x);
            assert(d2.drop_last() =~= done);
            done = d2;
        }
        assert(orig =~= done + rev@.reverse());
    }
    assert(rev@.reverse() =~= Seq::<Exchange>::empty());
    assert(done =~= orig);
    out
}

/// The `--max-count` window over the timeline: `0` or absent keeps all; a positive `N`
/// keeps the earliest `N`, a negative `-N` the latest `N`.
pub open spec fn windowed(s: Seq<Exchange>, max_count: Option<i64>) -> Seq<Exchange> {
    match max_count {
        Some(n) => if n == 0 {
            s
        } else {
            let keep: int = magnitude(n);
            if s.len() > keep {
                if n > 0 { s.take(keep) } else { s.skip(s.len() - keep) }
            } else {
                s
            }
        },
        None => s,
    }
}

/// How many exchanges a non-zero count keeps, saturated at `usize::MAX`.
pub open spec fn magnitude(n: i64) -> int {
    if n > 0 { n as int } else { -(n as int) }
}

fn keep_count(n: i64) -> (k: usize)
    requires
        n != 0,
    ensures
        k as int == (if magnitude(n) > usize::MAX { usize::MAX as int } else { magnitude(n) }),
{
    let m: u64 = if n > 0 { n as u64 } else if n == i64::MIN { 9223372036854775808u64 } else { (-n) as u64 };
    if m as u128 > usize::MAX as u128 { usize::MAX } else { m as usize }
}

/// A positive `--max-count N` keeps the earliest `N` exchanges of a longer timeline, in
/// order; a negative `-N` keeps the latest `N`; `0` or no count keeps them all.
pub proof fn lemma_window_keeps_earliest_or_latest(s: Seq<Exchange>, n: i64)
    ensures
        n > 0 && s.len() > n ==> windowed(s, Some(n)).len() == n
            && forall|i: int| 0 <= i < n ==> #[trigger] windowed(s, Some(n))[i] == s[i],
        n < 0 && s.len() > -(n as int) ==> windowed(s, Some(n)).len() == -(n as int)
            && forall|i: int| 0 <= i < -(n as int) ==> #[trigger] windowed(s, Some(n))[i] == s[s.len() + n + i],
        (n > 0 && s.len() <= n) || (n < 0 && s.len() <= -(n as int)) || n == 0 ==> windowed(s, Some(n)) == s,
        windowed(s, None) == s,
{
}

/// Apply the signed `--max-count` window; returns how many exchanges it dropped.
pub fn apply_cap(all: &mut Vec<Exchange>, max_count: Option<i64>) -> (dropped: usize)
    ensures
        final(all)@ == windowed(old(all)@, max_count),
        dropped == old(all)@.len() - final(all)@.len(),
        max_count matches Some(n) ==> (n > 0 && old(all)@.len() > n ==> final(all)@.len() == n
            && forall|i: int| 0 <= i < n ==> #[trigger] final(all)@[i] == old(all)@[i]),
        max_count matches Some(n) ==> (n < 0 && old(all)@.len() > -(n as int) ==> final(all)@.len() == -(n as int)
            && forall|i: int| 0 <= i < -(n as int) ==> #[trigger] final(all)@[i] == old(all)@[old(all)@.len() + n + i]),
{
    let n = match max_count {
        None => return 0,
        Some(n) => n,
    };
    if n == 0 {
        return 0;
    }
    let keep = keep_count(n);
    let len = all.len();
    if len <= keep {
        return 0;
    }
    let ghost orig = all@;
    if n > 0 {
        all.truncate(keep);
        assert(all@ =~= orig.take(keep as int));
    } else {
        let tail = all.split_off(len - keep);
        *all = tail;
        assert(all@ =~= orig.skip(len - keep));
    }
    len - keep
}

/// Every file's exchanges laid end to end, in file order.
pub open spec fn concat_files(files: Seq<(Vec<Exchange>, usize)>) -> Seq<Exchange>
    decreases files.len(),
{
    if files.len() == 0 { Seq::empty() } else { concat_files(files.drop_last()) + files.last().0@ }
}

/// The malformed lines of every file, summed.
pub open spec fn skipped_total(files: Seq<(Vec<Exchange>, usize)>) -> int
    decreases files.len(),
{
    if files.len() == 0 { 0 } else { skipped_total(files.drop_last()) + files.last().1 }
}

proof fn lemma_skipped_mono(files: Seq<(Vec<Exchange>, usize)>, k: int)
    requires
        0 <= k <= files.len(),
    ensures
        skipped_total(files.take(k)) <= skipped_total(files),
    decreases files.len() - k,
{
    if k < files.len() {
        lemma_skipped_mono(files, k + 1);
        assert(files.take(k + 1).drop_last() =~= files.take(k));
    } else {
        assert(files.take(k) =~= files);
    }
}

/// Merge the per-file results into the search outcome: one stable chronological
/// timeline, the true totals taken before the cap, then the signed `--max-count` window
/// with its drop counted. The scope counts are carried through.
pub fn collect_outcome(per_file: Vec<(Vec<Exchange>, usize)>, scope_top: usize, scope_sub: usize, max_count: Option<i64>)
    -> (r: SearchOutcome)
    requires
        skipped_total(per_file@) <= usize::MAX,
    ensures
        r.total_matched == concat_files(per_file@).len(),
        r.total_sessions == distinct_ids(timeline(concat_files(per_file@))).len(),
        r.exchanges@ == windowed(timeline(concat_files(per_file@)), max_count),
        r.dropped_by_cap == concat_files(per_file@).len() - r.exchanges@.len(),
        r.skipped_lines == skipped_total(per_file@),
        r.scope_top == scope_top && r.scope_sub == scope_sub,
        r.chain.abandoned_records == 0 && r.chain.drafts == 0 && r.chain.rewound_turns == 0,
        r.chain.replay_copies == 0 && r.chain.boundary_cut_line is None && r.chain.leaf_source is None,
{
    let mut all: Vec<Exchange> = Vec::new();
    let mut skipped: usize = 0;
    let mut files = per_file;
    let ghost orig = files@;
    let mut rev: Vec<(Vec<Exchange>, usize)> = Vec::new();
    while files.len() > 0
        invariant
            orig == files@ + rev@.reverse(),
        decreases files.len(),
    {
        let ghost f0 = files@;
        let ghost v0 = rev@;
        let x = files.pop().unwrap();
        rev.push(x);
        assert(rev@.reverse() =~= seq![x] + v0.reverse());
        assert(f0 =~= files@.push(x));
        assert(orig =~= files@ + rev@.reverse());
    }
    let ghost mut done: Seq<(Vec<Exchange>, usize)> = Seq::empty();
    assert(orig =~= rev@.reverse());
    while rev.len() > 0
        invariant
            orig == done + rev@.reverse(),
            all@ == concat_files(done),
            skipped == skipped_total(done),
            skipped_total(orig) <= usize::MAX,
        decreases rev.len(),
    {
        let ghost v0 = rev@;
        let (mut exs, sk) = rev.pop().unwrap();
        let ghost pair = (exs, sk);
        assert(v0.reverse() =~= seq![pair] + rev@.reverse());
        proof {
            let d2 = done.push(pair);
            assert(orig =~= d2 + rev@.reverse());
            assert(orig.take(d2.len() as int) =~= d2);
            lemma_skipped_mono(orig, d2.len() as int);
            assert(d2.drop_last() =~= done);
        }
        skipped = skipped + sk;
        all.append(&mut exs);
        proof {
            let d2 = done.push(pair);
            assert(d2.drop_last() =~= done);
            done = d2;
        }
        assert(orig =~= done + rev@.reverse());
    }
    assert(rev@.reverse() =~= Seq::<(Vec<Exchange>, usize)>::empty());
    assert(done =~= orig);
    let sorted = sort_timeline(all);
    proof { lemma_timeline_sorted(all@); }
    let total_matched = sorted.len();
    let total_sessions = distinct_session_count(&sorted);
    let mut exchanges = sorted;
    let dropped = apply_cap(&mut exchanges, max_count);
    SearchOutcome {
        exchanges,
        total_matched,
        total_sessions,
        dropped_by_cap: dropped,
        skipped_lines: skipped,
        chain: ChainCounts::new(),
        scope_top,
        scope_sub,
    }
}

} // verus!
