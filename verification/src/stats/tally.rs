//! Key-ordered tallies: a `key → value` table kept in ascending text order of its keys,
//! one entry per key (the shape a sorted map iterates in).

use vstd::prelude::*;
use crate::chars::str_eq;
use crate::subagent::{lex_le, str_le};
use crate::show::plan::{lemma_lex_antisym, lemma_lex_total, lemma_lex_trans};

verus! {

/// Keys strictly ascending in text order (so no key occurs twice).
pub open spec fn key_sorted<V>(e: Seq<(String, V)>) -> bool {
    forall|i: int, j: int| 0 <= i < j < e.len() ==> lex_le(#[trigger] e[i].0@, #[trigger] e[j].0@) && e[i].0@ != e[j].0@
}

/// Does the table hold key `k`?
pub open spec fn has_key<V>(e: Seq<(String, V)>, k: Seq<char>) -> bool {
    exists|i: int| 0 <= i < e.len() && #[trigger] e[i].0@ == k
}

/// The index of key `k` in the table (meaningful when [`has_key`]).
pub open spec fn slot_of<V>(e: Seq<(String, V)>, k: Seq<char>) -> int {
    choose|i: int| 0 <= i < e.len() && #[trigger] e[i].0@ == k
}

/// The value under key `k`, when the table holds it.
pub open spec fn value_at<V>(e: Seq<(String, V)>, k: Seq<char>) -> Option<V> {
    if has_key(e, k) { Some(e[slot_of(e, k)].1) } else { None }
}

/// The count under key `k` (0 when absent).
pub open spec fn count_of(e: Seq<(String, usize)>, k: Seq<char>) -> int {
    match value_at(e, k) {
        Some(n) => n as int,
        None => 0,
    }
}

/// In a key-sorted table the entry at `i` is the one its key names.
pub proof fn lemma_value_at<V>(e: Seq<(String, V)>, i: int)
    requires
        key_sorted(e),
        0 <= i < e.len(),
    ensures
        has_key(e, e[i].0@),
        value_at(e, e[i].0@) == Some(e[i].1),
{
    let k = e[i].0@;
    assert(has_key(e, k));
    let j = slot_of(e, k);
    if j < i {
        assert(e[j].0@ != e[i].0@);
    } else if j > i {
        assert(e[i].0@ != e[j].0@);
    }
}

/// Where key `k` is, or where it belongs: the position and whether it is present.
fn locate<V>(e: &Vec<(String, V)>, k: &str) -> (r: (usize, bool))
    requires
        key_sorted(e@),
    ensures
        r.0 <= e@.len(),
        r.1 ==> r.0 < e@.len() && e@[r.0 as int].0@ == k@,
        !r.1 ==> !has_key(e@, k@),
        forall|i: int| 0 <= i < r.0 ==> lex_le(#[trigger] e@[i].0@, k@) && e@[i].0@ != k@,
        !r.1 ==> forall|i: int| r.0 <= i < e@.len() ==> lex_le(k@, #[trigger] e@[i].0@),
{
    let mut i: usize = 0;
    while i < e.len() && !str_le(k, e[i].0.as_str())
        invariant
            i <= e@.len(),
            key_sorted(e@),
            forall|j: int| 0 <= j < i ==> lex_le(#[trigger] e@[j].0@, k@) && e@[j].0@ != k@,
        decreases e.len() - i,
    {
        proof {
            lemma_lex_total(k@, e@[i as int].0@);
            if e@[i as int].0@ == k@ {
                lemma_lex_total(k@, k@);
            }
        }
        i = i + 1;
    }
    if i < e.len() && str_eq(e[i].0.as_str(), k) {
        return (i, true);
    }
    proof {
        assert forall|j: int| i <= j < e@.len() implies lex_le(k@, #[trigger] e@[j].0@) by {
            if j > i {
                lemma_lex_trans(k@, e@[i as int].0@, e@[j].0@);
            }
        }
        if has_key(e@, k@) {
            let j = choose|j: int| 0 <= j < e@.len() && #[trigger] e@[j].0@ == k@;
            if j >= i {
                if j > i {
                    lemma_lex_antisym(k@, e@[i as int].0@);
                }
            }
        }
    }
    (i, false)
}

/// Inserting `(k, v)` at a position `p` that keeps the order keeps the table key-sorted.
proof fn lemma_insert_sorted<V>(e: Seq<(String, V)>, p: int, kv: (String, V))
    requires
        key_sorted(e),
        0 <= p <= e.len(),
        forall|i: int| 0 <= i < p ==> lex_le(#[trigger] e[i].0@, kv.0@) && e[i].0@ != kv.0@,
        forall|i: int| p <= i < e.len() ==> lex_le(kv.0@, #[trigger] e[i].0@) && e[i].0@ != kv.0@,
    ensures
        key_sorted(e.insert(p, kv)),
{
    let w = e.insert(p, kv);
    assert forall|a: int, b: int| 0 <= a < b < w.len() implies lex_le(#[trigger] w[a].0@, #[trigger] w[b].0@) && w[a].0@ != w[b].0@ by {
        if a < p && b > p {
            assert(w[a] == e[a] && w[b] == e[b - 1]);
            lemma_lex_trans(e[a].0@, kv.0@, e[b - 1].0@);
            if e[a].0@ == e[b - 1].0@ {
                lemma_lex_antisym(e[a].0@, kv.0@);
            }
        } else if a < p && b == p {
            assert(w[a] == e[a]);
        } else if a == p {
            assert(w[b] == e[b - 1]);
        } else if a < p {
            assert(w[a] == e[a] && w[b] == e[b]);
        } else {
            assert(w[a] == e[a - 1] && w[b] == e[b - 1]);
        }
    }
}

/// The value under key `k`, if the table holds it.
pub fn get<V: Copy>(e: &Vec<(String, V)>, k: &str) -> (r: Option<V>)
    requires
        key_sorted(e@),
    ensures
        r == value_at(e@, k@),
{
    let (p, present) = locate(e, k);
    if present {
        proof { lemma_value_at(e@, p as int); }
        Some(e[p].1)
    } else {
        None
    }
}

/// Set the value under `k` (a missing key enters with it).
pub fn put<V>(e: &mut Vec<(String, V)>, k: &str, v: V)
    requires
        key_sorted(old(e)@),
    ensures
        key_sorted(final(e)@),
        forall|q: Seq<char>| #[trigger] has_key(final(e)@, q) <==> (has_key(old(e)@, q) || q == k@),
        forall|q: Seq<char>| #[trigger] value_at(final(e)@, q) == (if q == k@ { Some(v) } else { value_at(old(e)@, q) }),
{
    let ghost before = e@;
    let ghost vv = v;
    let (p, present) = locate(e, k);
    if present {
        let key = e[p].0.clone();
        e.set(p, (key, v));
        proof {
            assert forall|a: int, b: int| 0 <= a < b < e@.len() implies lex_le(#[trigger] e@[a].0@, #[trigger] e@[b].0@) && e@[a].0@ != e@[b].0@ by {
                assert(e@[a].0@ == before[a].0@ && e@[b].0@ == before[b].0@);
            }
            assert forall|q: Seq<char>| #[trigger] has_key(e@, q) <==> (has_key(before, q) || q == k@) by {
                if has_key(before, q) {
                    let j = choose|j: int| 0 <= j < before.len() && #[trigger] before[j].0@ == q;
                    assert(e@[j].0@ == q);
                }
                if has_key(e@, q) {
                    let j = choose|j: int| 0 <= j < e@.len() && #[trigger] e@[j].0@ == q;
                    assert(before[j].0@ == q);
                }
            }
            assert forall|q: Seq<char>| #[trigger] value_at(e@, q) == (if q == k@ { Some(vv) } else { value_at(before, q) }) by {
                if q == k@ {
                    lemma_value_at(e@, p as int);
                } else if has_key(before, q) {
                    let j = choose|j: int| 0 <= j < before.len() && #[trigger] before[j].0@ == q;
                    lemma_value_at(before, j);
                    assert(e@[j].0@ == q);
                    lemma_value_at(e@, j);
                } else {
                    assert(!has_key(e@, q));
                }
            }
        }
    } else {
        proof { lemma_lex_total(k@, k@); }
        let item = (k.to_string(), v);
        let ghost kv = item;
        e.insert(p, item);
        proof {
            assert(e@ == before.insert(p as int, kv));
            lemma_insert_sorted(before, p as int, kv);
            assert forall|q: Seq<char>| #[trigger] has_key(e@, q) <==> (has_key(before, q) || q == k@) by {
                if has_key(before, q) {
                    let j = choose|j: int| 0 <= j < before.len() && #[trigger] before[j].0@ == q;
                    if j < p { assert(e@[j].0@ == q); } else { assert(e@[j + 1].0@ == q); }
                }
                if q == k@ {
                    assert(e@[p as int].0@ == q);
                }
                if has_key(e@, q) {
                    let j = choose|j: int| 0 <= j < e@.len() && #[trigger] e@[j].0@ == q;
                    if j < p { assert(before[j].0@ == q); } else if j > p { assert(before[j - 1].0@ == q); }
                }
            }
            assert forall|q: Seq<char>| #[trigger] value_at(e@, q) == (if q == k@ { Some(vv) } else { value_at(before, q) }) by {
                if q == k@ {
                    lemma_value_at(e@, p as int);
                } else if has_key(before, q) {
                    let j = choose|j: int| 0 <= j < before.len() && #[trigger] before[j].0@ == q;
                    lemma_value_at(before, j);
                    let jj = if j < p { j } else { j + 1 };
                    assert(e@[jj].0@ == q);
                    lemma_value_at(e@, jj);
                } else {
                    assert(!has_key(e@, q));
                }
            }
        }
    }
}

/// Add `n` to the count under `k` (a missing key enters with `n`).
pub fn bump(e: &mut Vec<(String, usize)>, k: &str, n: usize)
    requires
        key_sorted(old(e)@),
        count_of(old(e)@, k@) + n <= usize::MAX,
    ensures
        key_sorted(final(e)@),
        forall|q: Seq<char>| #[trigger] has_key(final(e)@, q) <==> (has_key(old(e)@, q) || q == k@),
        forall|q: Seq<char>| #[trigger] count_of(final(e)@, q) == count_of(old(e)@, q) + (if q == k@ { n as int } else { 0 }),
{
    let c = match get(e, k) {
        Some(c) => c,
        None => 0,
    };
    put(e, k, c + n);
}

/// `a + b`, held at `usize::MAX`.
pub open spec fn sat_usize(a: int, b: int) -> int {
    if a + b > usize::MAX { usize::MAX as int } else { a + b }
}

/// Add `n` to the count under `k`, the count held at `usize::MAX`.
pub fn bump_saturating(e: &mut Vec<(String, usize)>, k: &str, n: usize)
    requires
        key_sorted(old(e)@),
    ensures
        key_sorted(final(e)@),
        forall|q: Seq<char>| #[trigger] has_key(final(e)@, q) <==> (has_key(old(e)@, q) || q == k@),
        forall|q: Seq<char>| #[trigger] count_of(final(e)@, q) == (if q == k@ { sat_usize(count_of(old(e)@, q), n as int) } else { count_of(old(e)@, q) }),
{
    let c = match get(e, k) {
        Some(c) => c,
        None => 0,
    };
    put(e, k, c.saturating_add(n));
}

/// The value under key `k`, by reference, if the table holds it.
pub fn lookup<'a, V>(e: &'a Vec<(String, V)>, k: &str) -> (r: Option<&'a V>)
    requires
        key_sorted(e@),
    ensures
        match r {
            Some(v) => value_at(e@, k@) == Some(*v),
            None => value_at(e@, k@) is None,
        },
{
    let (p, present) = locate(e, k);
    if present {
        proof { lemma_value_at(e@, p as int); }
        Some(&e[p].1)
    } else {
        None
    }
}

} // verus!
