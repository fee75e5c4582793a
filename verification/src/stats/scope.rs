//! The scope across sessions: rows in session-id order, the opt-in `--max-count` cap that
//! keeps the most recently active sessions, and the scope totals. Token usage is
//! deduplicated per file only; the total sums the rows and never dedupes across files.

use vstd::prelude::*;
use crate::chars::str_eq;
use crate::model::opt_view;
use crate::stats::counts::{cap_usize, lex_lt};
use crate::stats::order::{ins, isort, lemma_ins_at, lemma_ins_len, lemma_isort_len, lemma_isort_multiset, lemma_isort_sorted,
    sorted_by, strict_order};
use crate::show::plan::{lemma_lex_antisym, lemma_lex_total, lemma_lex_trans};
use crate::stats::session::SessionStats;
use crate::stats::tally::{bump_saturating, count_of, get, has_key, key_sorted, lemma_value_at, put, value_at};
use crate::stats::tokens::{TokenSums, agrees, cap_u64, tfield};
use crate::subagent::str_le;

verus! {

/// Session-id order.
pub open spec fn id_lt(a: SessionStats, b: SessionStats) -> bool {
    lex_lt(a.session_id@, b.session_id@)
}

/// Most recently active first: a later `last_utc` goes first, and a session with no
/// timestamp goes after every session with one.
pub open spec fn recent_lt(a: SessionStats, b: SessionStats) -> bool {
    match (opt_view(a.last_utc), opt_view(b.last_utc)) {
        (Some(x), Some(y)) => lex_lt(y, x),
        (Some(_), None) => true,
        _ => false,
    }
}

fn goes_before(a: &SessionStats, b: &SessionStats, by_recency: bool) -> (r: bool)
    ensures
        r == (if by_recency { recent_lt(*a, *b) } else { id_lt(*a, *b) }),
{
    if by_recency {
        match (&a.last_utc, &b.last_utc) {
            (Some(x), Some(y)) => str_le(y.as_str(), x.as_str()) && !str_eq(y.as_str(), x.as_str()),
            (Some(_), None) => true,
            _ => false,
        }
    } else {
        str_le(a.session_id.as_str(), b.session_id.as_str()) && !str_eq(a.session_id.as_str(), b.session_id.as_str())
    }
}

/// The stable ordering of the rows by session id, or by recency.
pub fn sort_rows(rows: Vec<SessionStats>, by_recency: bool) -> (out: Vec<SessionStats>)
    ensures
        out@ == isort(rows@, if by_recency { |a: SessionStats, b: SessionStats| recent_lt(a, b) }
            else { |a: SessionStats, b: SessionStats| id_lt(a, b) }),
{
    let ghost lt = if by_recency { |a: SessionStats, b: SessionStats| recent_lt(a, b) }
        else { |a: SessionStats, b: SessionStats| id_lt(a, b) };
    let ghost input = rows@;
    let n0 = rows.len();
    assert(input.len() == n0);
    let mut rest = rows;
    let mut out: Vec<SessionStats> = Vec::new();
    let mut i: usize = 0;
    while rest.len() > 0
        invariant
            rest@ == input.skip(i as int),
            i <= input.len(),
            input.len() <= usize::MAX,
            out@ == isort(input.take(i as int), lt),
            lt == (if by_recency { |a: SessionStats, b: SessionStats| recent_lt(a, b) }
                else { |a: SessionStats, b: SessionStats| id_lt(a, b) }),
        decreases rest.len(),
    {
        assert(i < input.len());
        let x = rest.remove(0);
        let mut p: usize = 0;
        while p < out.len() && !goes_before(&x, &out[p], by_recency)
            invariant
                p <= out@.len(),
                forall|q: int| 0 <= q < p ==> !lt(x, #[trigger] out@[q]),
                lt == (if by_recency { |a: SessionStats, b: SessionStats| recent_lt(a, b) }
                    else { |a: SessionStats, b: SessionStats| id_lt(a, b) }),
            decreases out.len() - p,
        {
            p = p + 1;
        }
        proof {
            lemma_ins_at(out@, x, lt, p as int);
            assert(input.take(i + 1).drop_last() =~= input.take(i as int));
            assert(input.take(i + 1).last() == x);
        }
        out.insert(p, x);
        proof {
            assert(out@ =~= isort(input.take(i + 1), lt));
            assert(input.skip(i + 1) =~= input.skip(i as int).drop_first());
        }
        i = i + 1;
    }
    assert(input.take(i as int) =~= input);
    out
}

/// The rows of the scope and how many the cap dropped: id order; under a positive
/// `--max-count n` with more rows, the `n` most recently active rows (stable), in id
/// order again.
pub open spec fn spec_scope_rows(rows: Seq<SessionStats>, max_count: Option<usize>) -> (Seq<SessionStats>, int) {
    let by_id = isort(rows, |a: SessionStats, b: SessionStats| id_lt(a, b));
    match max_count {
        Some(n) => if n > 0 && by_id.len() > n {
            (isort(isort(by_id, |a: SessionStats, b: SessionStats| recent_lt(a, b)).take(n as int),
                |a: SessionStats, b: SessionStats| id_lt(a, b)), by_id.len() - n)
        } else {
            (by_id, 0)
        },
        None => (by_id, 0),
    }
}

/// Order the rows and apply the cap; the drop is reported, never silent.
pub fn scope_rows(rows: Vec<SessionStats>, max_count: Option<usize>) -> (r: (Vec<SessionStats>, usize))
    ensures
        (r.0@, r.1 as int) == spec_scope_rows(rows@, max_count),
{
    let ghost input = rows@;
    let by_id = sort_rows(rows, false);
    proof { lemma_isort_len(input, |a: SessionStats, b: SessionStats| id_lt(a, b)); }
    match max_count {
        Some(n) => {
            if n > 0 && by_id.len() > n {
                let ghost sorted_id = by_id@;
                let mut recent = sort_rows(by_id, true);
                proof { lemma_isort_len(sorted_id, |a: SessionStats, b: SessionStats| recent_lt(a, b)); }
                let dropped = recent.len() - n;
                recent.truncate(n);
                let out = sort_rows(recent, false);
                (out, dropped)
            } else {
                (by_id, 0)
            }
        },
        None => (by_id, 0),
    }
}

/// `(top-level, subagent)` sessions among the rows.
pub open spec fn subagent_rows(rows: Seq<SessionStats>) -> int
    decreases rows.len(),
{
    if rows.len() == 0 {
        0
    } else {
        subagent_rows(rows.drop_last()) + (if rows.last().is_subagent { 1int } else { 0int })
    }
}

pub fn scope_split(rows: &Vec<SessionStats>) -> (r: (usize, usize))
    ensures
        r.1 == subagent_rows(rows@),
        r.0 + r.1 == rows@.len(),
{
    let mut sub: usize = 0;
    let mut i: usize = 0;
    while i < rows.len()
        invariant
            i <= rows@.len(),
            sub <= i,
            sub == subagent_rows(rows@.take(i as int)),
        decreases rows.len() - i,
    {
        assert(rows@.take(i + 1).drop_last() =~= rows@.take(i as int));
        if rows[i].is_subagent {
            sub = sub + 1;
        }
        i = i + 1;
    }
    assert(rows@.take(rows@.len() as int) =~= rows@);
    (rows.len() - sub, sub)
}

/// Which per-session census a scope total merges.
#[derive(Debug, Clone, Copy, PartialEq, Eq, Structural)]
pub enum Census {
    Tools,
    LineTypes,
    Narration,
}

pub open spec fn pick(r: SessionStats, c: Census) -> Seq<(String, usize)> {
    match c {
        Census::Tools => r.tools@,
        Census::LineTypes => r.line_types@,
        Census::Narration => r.narration_blocks@,
    }
}

fn pick_exec(r: &SessionStats, c: Census) -> (e: &Vec<(String, usize)>)
    ensures
        e@ == pick(*r, c),
{
    match c {
        Census::Tools => &r.tools,
        Census::LineTypes => &r.line_types,
        Census::Narration => &r.narration_blocks,
    }
}

/// Every per-session census is key-sorted (as [`crate::stats::session::stats_one_file`] makes them).
pub open spec fn rows_wf(rows: Seq<SessionStats>) -> bool {
    forall|i: int| 0 <= i < rows.len() ==> {
        &&& key_sorted((#[trigger] rows[i]).tools@)
        &&& key_sorted(rows[i].line_types@)
        &&& key_sorted(rows[i].narration_blocks@)
        &&& key_sorted(rows[i].tokens@)
    }
}

/// The count under `k`, summed over the rows.
pub open spec fn census_sum(rows: Seq<SessionStats>, c: Census, k: Seq<char>) -> int
    decreases rows.len(),
{
    if rows.len() == 0 {
        0
    } else {
        census_sum(rows.drop_last(), c, k) + count_of(pick(rows.last(), c), k)
    }
}

/// Does some row's census hold key `k`?
pub open spec fn census_has(rows: Seq<SessionStats>, c: Census, k: Seq<char>) -> bool {
    exists|i: int| 0 <= i < rows.len() && has_key(pick(#[trigger] rows[i], c), k)
}

/// The value under `k` summed over the first `n` entries.
pub open spec fn entry_sum(e: Seq<(String, usize)>, k: Seq<char>, n: int) -> int
    decreases n,
{
    if n <= 0 {
        0
    } else {
        entry_sum(e, k, n - 1) + (if e[n - 1].0@ == k { e[n - 1].1 as int } else { 0int })
    }
}

proof fn lemma_entry_sum(e: Seq<(String, usize)>, k: Seq<char>, n: int)
    requires
        key_sorted(e),
        0 <= n <= e.len(),
    ensures
        entry_sum(e, k, n) == (if exists|i: int| 0 <= i < n && #[trigger] e[i].0@ == k { count_of(e, k) } else { 0 }),
    decreases n,
{
    if n > 0 {
        lemma_entry_sum(e, k, n - 1);
        if e[n - 1].0@ == k {
            lemma_value_at(e, n - 1);
            if exists|i: int| 0 <= i < n - 1 && #[trigger] e[i].0@ == k {
                let i = choose|i: int| 0 <= i < n - 1 && #[trigger] e[i].0@ == k;
                assert(e[i].0@ != e[n - 1].0@);
            }
        } else {
            if exists|i: int| 0 <= i < n && #[trigger] e[i].0@ == k {
                let i = choose|i: int| 0 <= i < n && #[trigger] e[i].0@ == k;
                assert(i < n - 1);
            }
        }
    }
}

proof fn lemma_census_sum_nonneg(rows: Seq<SessionStats>, c: Census, k: Seq<char>)
    ensures
        census_sum(rows, c, k) >= 0,
    decreases rows.len(),
{
    if rows.len() > 0 {
        lemma_census_sum_nonneg(rows.drop_last(), c, k);
    }
}

proof fn lemma_entry_sum_nonneg(e: Seq<(String, usize)>, k: Seq<char>, n: int)
    ensures
        entry_sum(e, k, n) >= 0,
    decreases n,
{
    if n > 0 {
        lemma_entry_sum_nonneg(e, k, n - 1);
    }
}

/// Sum one per-session `key → count` census across the scope (each count held at
/// `usize::MAX`).
pub fn merged_counts(rows: &Vec<SessionStats>, c: Census) -> (total: Vec<(String, usize)>)
    requires
        rows_wf(rows@),
    ensures
        key_sorted(total@),
        forall|k: Seq<char>| #[trigger] has_key(total@, k) <==> census_has(rows@, c, k),
        forall|k: Seq<char>| #[trigger] count_of(total@, k) == cap_usize(census_sum(rows@, c, k)),
{
    let mut total: Vec<(String, usize)> = Vec::new();
    let mut i: usize = 0;
    while i < rows.len()
        invariant
            i <= rows@.len(),
            rows_wf(rows@),
            key_sorted(total@),
            forall|k: Seq<char>| #[trigger] has_key(total@, k) <==> census_has(rows@.take(i as int), c, k),
            forall|k: Seq<char>| #[trigger] count_of(total@, k) == cap_usize(census_sum(rows@.take(i as int), c, k)),
        decreases rows.len() - i,
    {
        let e = pick_exec(&rows[i], c);
        let ghost pre = rows@.take(i as int);
        let ghost next = rows@.take(i + 1);
        proof {
            assert(next.drop_last() =~= pre);
            assert(next.last() == rows@[i as int]);
            assert(key_sorted(e@)) by {
                assert(key_sorted(rows@[i as int].tools@));
            }
        }
        proof {
            assert forall|k: Seq<char>| census_sum(pre, c, k) >= 0 by { lemma_census_sum_nonneg(pre, c, k); }
        }
        let mut j: usize = 0;
        while j < e.len()
            invariant
                j <= e@.len(),
                key_sorted(e@),
                key_sorted(total@),
                forall|k: Seq<char>| #[trigger] has_key(total@, k) <==>
                    (census_has(pre, c, k) || exists|q: int| 0 <= q < j && #[trigger] e@[q].0@ == k),
                forall|k: Seq<char>| #[trigger] count_of(total@, k) == cap_usize(census_sum(pre, c, k) + entry_sum(e@, k, j as int)),
                forall|k: Seq<char>| census_sum(pre, c, k) >= 0,
                forall|k: Seq<char>| entry_sum(e@, k, j as int) >= 0,
            decreases e.len() - j,
        {
            bump_saturating(&mut total, e[j].0.as_str(), e[j].1);
            proof {
                let jj: int = j + 1;
                assert forall|k: Seq<char>| #[trigger] entry_sum(e@, k, jj) >= 0 by { lemma_entry_sum_nonneg(e@, k, jj); }
                assert forall|k: Seq<char>| #[trigger] has_key(total@, k) <==>
                    (census_has(pre, c, k) || exists|q: int| 0 <= q < j + 1 && #[trigger] e@[q].0@ == k) by {
                    if exists|q: int| 0 <= q < j + 1 && #[trigger] e@[q].0@ == k {
                        let q = choose|q: int| 0 <= q < j + 1 && #[trigger] e@[q].0@ == k;
                        if q < j {
                            assert(exists|q: int| 0 <= q < j && #[trigger] e@[q].0@ == k);
                        }
                    }
                }
            }
            j = j + 1;
        }
        proof {
            assert forall|k: Seq<char>| #[trigger] has_key(total@, k) <==> census_has(next, c, k) by {
                if census_has(pre, c, k) {
                    let r = choose|r: int| 0 <= r < pre.len() && has_key(pick(#[trigger] pre[r], c), k);
                    assert(next[r] == pre[r]);
                }
                if exists|q: int| 0 <= q < e@.len() && #[trigger] e@[q].0@ == k {
                    assert(has_key(pick(next[i as int], c), k));
                }
                if census_has(next, c, k) {
                    let r = choose|r: int| 0 <= r < next.len() && has_key(pick(#[trigger] next[r], c), k);
                    if r < i {
                        assert(next[r] == pre[r]);
                    } else {
                        let q = choose|q: int| 0 <= q < e@.len() && #[trigger] e@[q].0@ == k;
                    }
                }
            }
            assert forall|k: Seq<char>| #[trigger] count_of(total@, k) == cap_usize(census_sum(next, c, k)) by {
                lemma_entry_sum(e@, k, e@.len() as int);
                if !(exists|q: int| 0 <= q < e@.len() && #[trigger] e@[q].0@ == k) {
                    assert(!has_key(e@, k));
                }
            }
        }
        i = i + 1;
    }
    assert(rows@.take(rows@.len() as int) =~= rows@);
    total
}

/// Field `f` of model `m`'s sums, added over the rows.
pub open spec fn token_sum(rows: Seq<SessionStats>, m: Seq<char>, f: int) -> int
    decreases rows.len(),
{
    if rows.len() == 0 {
        0
    } else {
        token_sum(rows.drop_last(), m, f) + match value_at(rows.last().tokens@, m) {
            Some(t) => tfield(t, f),
            None => 0,
        }
    }
}

/// Does some row have sums for model `m`?
pub open spec fn token_has(rows: Seq<SessionStats>, m: Seq<char>) -> bool {
    exists|i: int| 0 <= i < rows.len() && has_key((#[trigger] rows[i]).tokens@, m)
}

/// Field `f` under key `m` over the first `n` entries.
pub open spec fn token_entry_sum(e: Seq<(String, TokenSums)>, m: Seq<char>, n: int, f: int) -> int
    decreases n,
{
    if n <= 0 {
        0
    } else {
        token_entry_sum(e, m, n - 1, f) + (if e[n - 1].0@ == m { tfield(e[n - 1].1, f) } else { 0int })
    }
}

proof fn lemma_token_entry_sum(e: Seq<(String, TokenSums)>, m: Seq<char>, n: int, f: int)
    requires
        key_sorted(e),
        0 <= n <= e.len(),
    ensures
        token_entry_sum(e, m, n, f) == (if exists|i: int| 0 <= i < n && #[trigger] e[i].0@ == m {
            tfield(value_at(e, m)->0, f) } else { 0 }),
        token_entry_sum(e, m, n, f) >= 0,
    decreases n,
{
    if n > 0 {
        lemma_token_entry_sum(e, m, n - 1, f);
        if e[n - 1].0@ == m {
            lemma_value_at(e, n - 1);
            if exists|i: int| 0 <= i < n - 1 && #[trigger] e[i].0@ == m {
                let i = choose|i: int| 0 <= i < n - 1 && #[trigger] e[i].0@ == m;
                assert(e[i].0@ != e[n - 1].0@);
            }
        } else {
            if exists|i: int| 0 <= i < n && #[trigger] e[i].0@ == m {
                let i = choose|i: int| 0 <= i < n && #[trigger] e[i].0@ == m;
                assert(i < n - 1);
            }
        }
    }
}

proof fn lemma_token_sum_nonneg(rows: Seq<SessionStats>, m: Seq<char>, f: int)
    ensures
        token_sum(rows, m, f) >= 0,
    decreases rows.len(),
{
    if rows.len() > 0 {
        lemma_token_sum_nonneg(rows.drop_last(), m, f);
    }
}

fn zero_tokens() -> (t: TokenSums)
    ensures
        agrees(t, |f: int| 0),
{
    TokenSums { input: 0, output: 0, cache_read: 0, cache_creation: 0 }
}

fn add_tokens(a: TokenSums, b: TokenSums) -> (t: TokenSums)
    ensures
        agrees(t, |f: int| cap_u64(tfield(a, f) + tfield(b, f))),
{
    TokenSums {
        input: a.input.saturating_add(b.input),
        output: a.output.saturating_add(b.output),
        cache_read: a.cache_read.saturating_add(b.cache_read),
        cache_creation: a.cache_creation.saturating_add(b.cache_creation),
    }
}

/// The token sums of the scope: each row is already deduplicated within its file; the
/// total adds the rows (each field held at `u64::MAX`).
pub fn merged_tokens(rows: &Vec<SessionStats>) -> (total: Vec<(String, TokenSums)>)
    requires
        rows_wf(rows@),
    ensures
        key_sorted(total@),
        forall|m: Seq<char>| #[trigger] has_key(total@, m) <==> token_has(rows@, m),
        forall|m: Seq<char>| #[trigger] value_at(total@, m) matches Some(t)
            ==> agrees(t, |f: int| cap_u64(token_sum(rows@, m, f))),
{
    let mut total: Vec<(String, TokenSums)> = Vec::new();
    let mut i: usize = 0;
    while i < rows.len()
        invariant
            i <= rows@.len(),
            rows_wf(rows@),
            key_sorted(total@),
            forall|m: Seq<char>| #[trigger] has_key(total@, m) <==> token_has(rows@.take(i as int), m),
            forall|m: Seq<char>| #[trigger] value_at(total@, m) matches Some(t)
                ==> agrees(t, |f: int| cap_u64(token_sum(rows@.take(i as int), m, f))),
        decreases rows.len() - i,
    {
        let e = &rows[i].tokens;
        let ghost pre = rows@.take(i as int);
        let ghost next = rows@.take(i + 1);
        proof {
            assert(next.drop_last() =~= pre);
            assert(next.last() == rows@[i as int]);
            assert(key_sorted(e@));
        }
        let mut j: usize = 0;
        while j < e.len()
            invariant
                j <= e@.len(),
                key_sorted(e@),
                key_sorted(total@),
                forall|m: Seq<char>| #[trigger] has_key(total@, m) <==>
                    (token_has(pre, m) || exists|q: int| 0 <= q < j && #[trigger] e@[q].0@ == m),
                forall|m: Seq<char>| #[trigger] value_at(total@, m) matches Some(t)
                    ==> agrees(t, |f: int| cap_u64(token_sum(pre, m, f) + token_entry_sum(e@, m, j as int, f))),
            decreases e.len() - j,
        {
            let m = e[j].0.as_str();
            let cur = match get(&total, m) {
                Some(t) => t,
                None => zero_tokens(),
            };
            let ghost before = total@;
            put(&mut total, m, add_tokens(cur, e[j].1));
            proof {
                let jj: int = j + 1;
                assert forall|q: Seq<char>| #[trigger] has_key(total@, q) <==>
                    (token_has(pre, q) || exists|x: int| 0 <= x < jj && #[trigger] e@[x].0@ == q) by {
                    if exists|x: int| 0 <= x < jj && #[trigger] e@[x].0@ == q {
                        let x = choose|x: int| 0 <= x < jj && #[trigger] e@[x].0@ == q;
                        if x < j {
                            assert(exists|x: int| 0 <= x < j && #[trigger] e@[x].0@ == q);
                        }
                    }
                }
                assert forall|q: Seq<char>| #[trigger] value_at(total@, q) is Some
                    implies agrees(value_at(total@, q)->0, |f: int| cap_u64(token_sum(pre, q, f) + token_entry_sum(e@, q, jj, f))) by {
                    lemma_token_sum_nonneg(pre, q, 0);
                    lemma_token_sum_nonneg(pre, q, 1);
                    lemma_token_sum_nonneg(pre, q, 2);
                    lemma_token_sum_nonneg(pre, q, 3);
                    lemma_token_entry_sum(e@, q, j as int, 0);
                    lemma_token_entry_sum(e@, q, j as int, 1);
                    lemma_token_entry_sum(e@, q, j as int, 2);
                    lemma_token_entry_sum(e@, q, j as int, 3);
                    if q == m@ && !has_key(before, q) {
                        lemma_token_absent(pre, q, 0);
                        lemma_token_absent(pre, q, 1);
                        lemma_token_absent(pre, q, 2);
                        lemma_token_absent(pre, q, 3);
                    }
                }
            }
            j = j + 1;
        }
        proof {
            assert forall|m: Seq<char>| #[trigger] has_key(total@, m) <==> token_has(next, m) by {
                if token_has(pre, m) {
                    let r = choose|r: int| 0 <= r < pre.len() && has_key((#[trigger] pre[r]).tokens@, m);
                    assert(next[r] == pre[r]);
                }
                if exists|q: int| 0 <= q < e@.len() && #[trigger] e@[q].0@ == m {
                    assert(has_key(next[i as int].tokens@, m));
                }
                if token_has(next, m) {
                    let r = choose|r: int| 0 <= r < next.len() && has_key((#[trigger] next[r]).tokens@, m);
                    if r < i {
                        assert(next[r] == pre[r]);
                    } else {
                        let q = choose|q: int| 0 <= q < e@.len() && #[trigger] e@[q].0@ == m;
                    }
                }
            }
            assert forall|m: Seq<char>| #[trigger] value_at(total@, m) is Some
                implies agrees(value_at(total@, m)->0, |f: int| cap_u64(token_sum(next, m, f))) by {
                lemma_token_entry_sum(e@, m, e@.len() as int, 0);
                lemma_token_entry_sum(e@, m, e@.len() as int, 1);
                lemma_token_entry_sum(e@, m, e@.len() as int, 2);
                lemma_token_entry_sum(e@, m, e@.len() as int, 3);
                if !(exists|q: int| 0 <= q < e@.len() && #[trigger] e@[q].0@ == m) {
                    assert(!has_key(e@, m));
                }
            }
        }
        i = i + 1;
    }
    assert(rows@.take(rows@.len() as int) =~= rows@);
    total
}

proof fn lemma_token_absent(rows: Seq<SessionStats>, m: Seq<char>, f: int)
    requires
        !token_has(rows, m),
    ensures
        token_sum(rows, m, f) == 0,
    decreases rows.len(),
{
    if rows.len() > 0 {
        let p = rows.drop_last();
        assert(!token_has(p, m)) by {
            if token_has(p, m) {
                let r = choose|r: int| 0 <= r < p.len() && has_key((#[trigger] p[r]).tokens@, m);
                assert(rows[r] == p[r]);
            }
        }
        assert(!has_key(rows[rows.len() - 1].tokens@, m));
        lemma_token_absent(p, m, f);
    }
}

proof fn lemma_lex_lt_trans(a: Seq<char>, b: Seq<char>, c: Seq<char>)
    requires
        lex_lt(a, b),
        lex_lt(b, c),
    ensures
        lex_lt(a, c),
{
    lemma_lex_trans(a, b, c);
    if a == c {
        lemma_lex_antisym(a, b);
    }
}

proof fn lemma_id_order()
    ensures
        strict_order(|a: SessionStats, b: SessionStats| id_lt(a, b)),
{
    let lt = |a: SessionStats, b: SessionStats| id_lt(a, b);
    assert forall|a: SessionStats, b: SessionStats, c: SessionStats| #[trigger] lt(a, b) && #[trigger] lt(b, c) implies lt(a, c) by {
        lemma_lex_lt_trans(a.session_id@, b.session_id@, c.session_id@);
    }
}

proof fn lemma_recent_order()
    ensures
        strict_order(|a: SessionStats, b: SessionStats| recent_lt(a, b)),
{
    let lt = |a: SessionStats, b: SessionStats| recent_lt(a, b);
    assert forall|a: SessionStats, b: SessionStats, c: SessionStats| #[trigger] lt(a, b) && #[trigger] lt(b, c) implies lt(a, c) by {
        match (opt_view(a.last_utc), opt_view(b.last_utc), opt_view(c.last_utc)) {
            (Some(x), Some(y), Some(z)) => { lemma_lex_lt_trans(z, y, x); },
            _ => {},
        }
    }
}

/// The rows print in session-id order, capped or not.
pub proof fn lemma_scope_rows_in_id_order(rows: Seq<SessionStats>, max_count: Option<usize>)
    ensures
        sorted_by(spec_scope_rows(rows, max_count).0, |a: SessionStats, b: SessionStats| id_lt(a, b)),
{
    lemma_id_order();
    lemma_isort_sorted(rows, |a: SessionStats, b: SessionStats| id_lt(a, b));
    let by_id = isort(rows, |a: SessionStats, b: SessionStats| id_lt(a, b));
    match max_count {
        Some(n) => {
            let kept = isort(by_id, |a: SessionStats, b: SessionStats| recent_lt(a, b)).take(n as int);
            lemma_isort_sorted(kept, |a: SessionStats, b: SessionStats| id_lt(a, b));
        },
        None => {},
    }
}

/// The cap keeps the most recently active sessions: under a positive `--max-count n`
/// with more rows, the shown rows are exactly the first `n` of the recency order, no
/// left-out row was active later than a kept one, and the report counts every
/// left-out row.
pub proof fn lemma_cap_keeps_most_recent(rows: Seq<SessionStats>, n: usize)
    requires
        n > 0,
        rows.len() > n,
    ensures
        ({
            let by_recency = isort(isort(rows, |a: SessionStats, b: SessionStats| id_lt(a, b)),
                |a: SessionStats, b: SessionStats| recent_lt(a, b));
            &&& by_recency.to_multiset() == rows.to_multiset()
            &&& spec_scope_rows(rows, Some(n)).0.to_multiset() == by_recency.take(n as int).to_multiset()
            &&& forall|i: int, j: int| 0 <= i < n <= j < by_recency.len() ==> !recent_lt(#[trigger] by_recency[j], #[trigger] by_recency[i])
            &&& spec_scope_rows(rows, Some(n)).1 == rows.len() - n
        }),
{
    let idl = |a: SessionStats, b: SessionStats| id_lt(a, b);
    let rl = |a: SessionStats, b: SessionStats| recent_lt(a, b);
    let by_id = isort(rows, idl);
    let by_recency = isort(by_id, rl);
    lemma_isort_multiset(rows, idl);
    lemma_isort_multiset(by_id, rl);
    lemma_isort_len(rows, idl);
    lemma_isort_len(by_id, rl);
    lemma_isort_multiset(by_recency.take(n as int), idl);
    lemma_recent_order();
    lemma_isort_sorted(by_id, rl);
    assert forall|i: int, j: int| 0 <= i < n <= j < by_recency.len() implies !recent_lt(#[trigger] by_recency[j], #[trigger] by_recency[i]) by {
        assert(!rl(by_recency[j], by_recency[i]));
    }
}

} // verus!
