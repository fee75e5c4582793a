//! Token sums per model. The coding agent repeats one API message's `usage` on every
//! per-block record of that message, so usage is deduplicated per file by `message.id`:
//! each `(model, id)` counts once, with the per-field maximum over its records (a
//! replayed copy with zeroed usage cannot lower it). A record without an id counts on
//! its own.

use vstd::prelude::*;
use crate::chars::str_eq;
use crate::model::{Record, Usage};
use crate::stats::counts::{derefs, model_key};
use crate::stats::tally::{get, has_key, key_sorted, put, value_at};

verus! {

/// Token counters of one model.
#[derive(Debug, Clone, Copy, PartialEq, Eq, Structural)]
pub struct TokenSums {
    pub input: u64,
    pub output: u64,
    pub cache_read: u64,
    pub cache_creation: u64,
}

/// The `usage` of a record's message.
pub open spec fn usage_of(r: Record) -> Option<Usage> {
    match r.message {
        Some(m) => m.usage,
        None => None,
    }
}

/// The record's non-empty `message.id`.
pub open spec fn usage_id(r: Record) -> Option<Seq<char>> {
    match r.message {
        Some(m) => match m.id {
            Some(d) => if d@.len() > 0 { Some(d@) } else { None },
            None => None,
        },
        None => None,
    }
}

/// Field `f` of a usage (0 input, 1 output, 2 cache read, 3 cache creation; absent = 0).
pub open spec fn ufield(u: Usage, f: int) -> int {
    let o = if f == 0 {
        u.input_tokens
    } else if f == 1 {
        u.output_tokens
    } else if f == 2 {
        u.cache_read_input_tokens
    } else {
        u.cache_creation_input_tokens
    };
    match o {
        Some(v) => v as int,
        None => 0,
    }
}

/// Field `f` of the sums.
pub open spec fn tfield(t: TokenSums, f: int) -> int {
    if f == 0 {
        t.input as int
    } else if f == 1 {
        t.output as int
    } else if f == 2 {
        t.cache_read as int
    } else {
        t.cache_creation as int
    }
}

/// Do the four fields of `t` equal `g(0..4)`?
pub open spec fn agrees(t: TokenSums, g: spec_fn(int) -> int) -> bool {
    &&& tfield(t, 0) == g(0)
    &&& tfield(t, 1) == g(1)
    &&& tfield(t, 2) == g(2)
    &&& tfield(t, 3) == g(3)
}

/// `min(x, u64::MAX)`.
pub open spec fn cap_u64(x: int) -> int {
    if x > u64::MAX { u64::MAX as int } else { x }
}

/// Field `f` summed over the records with usage, no id and model `m`.
pub open spec fn direct_sum(a: Seq<Record>, m: Seq<char>, f: int) -> int
    decreases a.len(),
{
    if a.len() == 0 {
        0
    } else {
        direct_sum(a.drop_last(), m, f) + match usage_of(a.last()) {
            Some(u) => if usage_id(a.last()) is None && model_key(a.last()) == m { ufield(u, f) } else { 0 },
            None => 0,
        }
    }
}

/// The dedupe key of a record with usage and an id.
pub open spec fn usage_key(r: Record) -> Option<(Seq<char>, Seq<char>)> {
    match usage_of(r) {
        Some(_) => match usage_id(r) {
            Some(d) => Some((model_key(r), d)),
            None => None,
        },
        None => None,
    }
}

/// The distinct dedupe keys, in order of first occurrence.
pub open spec fn first_keys(a: Seq<Record>) -> Seq<(Seq<char>, Seq<char>)>
    decreases a.len(),
{
    if a.len() == 0 {
        seq![]
    } else {
        let p = first_keys(a.drop_last());
        match usage_key(a.last()) {
            Some(k) => if p.contains(k) { p } else { p.push(k) },
            None => p,
        }
    }
}

/// The largest field `f` among the records with dedupe key `k` (0 when none).
pub open spec fn peak(a: Seq<Record>, k: (Seq<char>, Seq<char>), f: int) -> int
    decreases a.len(),
{
    if a.len() == 0 {
        0
    } else {
        let p = peak(a.drop_last(), k, f);
        if usage_key(a.last()) == Some(k) {
            let v = ufield(usage_of(a.last())->0, f);
            if v > p { v } else { p }
        } else {
            p
        }
    }
}

/// The peaks of the keys of model `m`, summed.
pub open spec fn keyed_sum(keys: Seq<(Seq<char>, Seq<char>)>, a: Seq<Record>, m: Seq<char>, f: int) -> int
    decreases keys.len(),
{
    if keys.len() == 0 {
        0
    } else {
        keyed_sum(keys.drop_last(), a, m, f) + (if keys.last().0 == m { peak(a, keys.last(), f) } else { 0 })
    }
}

/// Field `f` of model `m`'s deduplicated total.
pub open spec fn token_total(a: Seq<Record>, m: Seq<char>, f: int) -> int {
    direct_sum(a, m, f) + keyed_sum(first_keys(a), a, m, f)
}

/// Does some record with usage name model `m`?
pub open spec fn has_usage(a: Seq<Record>, m: Seq<char>) -> bool {
    exists|i: int| 0 <= i < a.len() && usage_of(#[trigger] a[i]) is Some && model_key(a[i]) == m
}

/// Does some record with usage and no id name model `m`?
pub open spec fn has_direct(a: Seq<Record>, m: Seq<char>) -> bool {
    exists|i: int| 0 <= i < a.len() && usage_of(#[trigger] a[i]) is Some && usage_id(a[i]) is None && model_key(a[i]) == m
}

proof fn lemma_peak_bounds(a: Seq<Record>, k: (Seq<char>, Seq<char>), f: int)
    ensures
        0 <= peak(a, k, f) <= u64::MAX,
    decreases a.len(),
{
    if a.len() > 0 {
        lemma_peak_bounds(a.drop_last(), k, f);
    }
}

proof fn lemma_direct_nonneg(a: Seq<Record>, m: Seq<char>, f: int)
    ensures
        direct_sum(a, m, f) >= 0,
    decreases a.len(),
{
    if a.len() > 0 {
        lemma_direct_nonneg(a.drop_last(), m, f);
    }
}

proof fn lemma_keyed_nonneg(keys: Seq<(Seq<char>, Seq<char>)>, a: Seq<Record>, m: Seq<char>, f: int)
    ensures
        keyed_sum(keys, a, m, f) >= 0,
    decreases keys.len(),
{
    if keys.len() > 0 {
        lemma_keyed_nonneg(keys.drop_last(), a, m, f);
        lemma_peak_bounds(a, keys.last(), f);
    }
}

/// A model has usage exactly when it has an id-less record or a dedupe key.
proof fn lemma_has_usage(a: Seq<Record>, m: Seq<char>)
    ensures
        has_usage(a, m) <==> (has_direct(a, m) || exists|q: int| 0 <= q < first_keys(a).len() && (#[trigger] first_keys(a)[q]).0 == m),
    decreases a.len(),
{
    if a.len() > 0 {
        let p = a.drop_last();
        let n = a.len() - 1;
        lemma_has_usage(p, m);
        let fp = first_keys(p);
        let fa = first_keys(a);
        assert forall|q: int| 0 <= q < fp.len() implies #[trigger] fa[q] == fp[q] by {}
        if has_usage(a, m) {
            let i = choose|i: int| 0 <= i < a.len() && usage_of(#[trigger] a[i]) is Some && model_key(a[i]) == m;
            if i < n {
                assert(p[i] == a[i]);
                assert(has_usage(p, m));
                if has_direct(p, m) {
                    let j = choose|j: int| 0 <= j < p.len() && usage_of(#[trigger] p[j]) is Some && usage_id(p[j]) is None && model_key(p[j]) == m;
                    assert(a[j] == p[j]);
                } else {
                    let q = choose|q: int| 0 <= q < fp.len() && (#[trigger] fp[q]).0 == m;
                    assert(fa[q] == fp[q]);
                }
            } else {
                match usage_key(a[n]) {
                    Some(k) => {
                        if fp.contains(k) {
                            let q = choose|q: int| 0 <= q < fp.len() && fp[q] == k;
                            assert(fa[q] == fp[q]);
                        } else {
                            assert(fa[fp.len() as int] == k);
                        }
                    },
                    None => {},
                }
            }
        }
        if has_direct(a, m) {
            let i = choose|i: int| 0 <= i < a.len() && usage_of(#[trigger] a[i]) is Some && usage_id(a[i]) is None && model_key(a[i]) == m;
            assert(has_usage(a, m));
        }
        if exists|q: int| 0 <= q < fa.len() && (#[trigger] fa[q]).0 == m {
            let q = choose|q: int| 0 <= q < fa.len() && (#[trigger] fa[q]).0 == m;
            if q < fp.len() {
                assert(fp[q] == fa[q]);
                assert(has_usage(p, m));
                let i = choose|i: int| 0 <= i < p.len() && usage_of(#[trigger] p[i]) is Some && model_key(p[i]) == m;
                assert(a[i] == p[i]);
            } else {
                assert(usage_key(a[n]) is Some);
                assert(has_usage(a, m));
            }
        }
    }
}

fn field_or_zero(o: Option<u64>) -> (v: u64)
    ensures
        v as int == match o { Some(x) => x as int, None => 0 },
{
    match o {
        Some(x) => x,
        None => 0,
    }
}

fn usage_sums(u: &Usage) -> (t: TokenSums)
    ensures
        agrees(t, |f: int| ufield(*u, f)),
{
    TokenSums {
        input: field_or_zero(u.input_tokens),
        output: field_or_zero(u.output_tokens),
        cache_read: field_or_zero(u.cache_read_input_tokens),
        cache_creation: field_or_zero(u.cache_creation_input_tokens),
    }
}

/// Field-wise saturating sum.
fn add_sums(a: TokenSums, b: TokenSums) -> (t: TokenSums)
    ensures
        agrees(t, |f: int| cap_u64(tfield(a, f) + tfield(b, f))),
{
    TokenSums {
        input: a.input.saturating_add(b.input),
        output: a.output.saturating_add(b.output),
        cache_read: a.cache_read.saturating_add(b.cache_read),
        cache_creation: a.cache_creation.saturating_add(b.cache_creation),
    }
}

fn max_u64(a: u64, b: u64) -> (m: u64)
    ensures
        m == (if b > a { b } else { a }),
{
    if b > a { b } else { a }
}

/// Field-wise maximum.
fn max_sums(a: TokenSums, b: TokenSums) -> (t: TokenSums)
    ensures
        agrees(t, |f: int| if tfield(b, f) > tfield(a, f) { tfield(b, f) } else { tfield(a, f) }),
{
    TokenSums {
        input: max_u64(a.input, b.input),
        output: max_u64(a.output, b.output),
        cache_read: max_u64(a.cache_read, b.cache_read),
        cache_creation: max_u64(a.cache_creation, b.cache_creation),
    }
}

fn zero_sums() -> (t: TokenSums)
    ensures
        agrees(t, |f: int| 0),
{
    TokenSums { input: 0, output: 0, cache_read: 0, cache_creation: 0 }
}

/// One deduplicated API message: its model, its id and its field-wise peak usage.
struct PeakRow {
    model: String,
    id: String,
    vals: TokenSums,
}

/// The model, id and usage of a record, when it carries usage.
fn usage_parts(r: &Record) -> (p: Option<(&str, Option<&str>, TokenSums)>)
    ensures
        match p {
            Some((m, d, t)) => usage_of(*r) is Some && m@ == model_key(*r)
                && (match d { Some(s) => Some(s@), None => None }) == usage_id(*r)
                && agrees(t, |f: int| ufield(usage_of(*r)->0, f)),
            None => usage_of(*r) is None,
        },
{
    proof {
        reveal_strlit("(unknown)");
    }
    match &r.message {
        Some(m) => match &m.usage {
            Some(u) => {
                let model: &str = match &m.model {
                    Some(s) => s.as_str(),
                    None => "(unknown)",
                };
                let id: Option<&str> = match &m.id {
                    Some(d) => if d.as_str().is_empty() { None } else { Some(d.as_str()) },
                    None => None,
                };
                Some((model, id, usage_sums(u)))
            },
            None => None,
        },
        None => None,
    }
}

/// The deduplicated token sums per model (see the module doc); each field is held at
/// `u64::MAX`.
pub fn token_sums(a: &Vec<&Record>) -> (tokens: Vec<(String, TokenSums)>)
    ensures
        key_sorted(tokens@),
        forall|m: Seq<char>| #[trigger] has_key(tokens@, m) <==> has_usage(derefs(a@), m),
        forall|m: Seq<char>| #[trigger] value_at(tokens@, m) matches Some(t)
            ==> agrees(t, |f: int| cap_u64(token_total(derefs(a@), m, f))),
{
    let ghost all = derefs(a@);
    let mut tokens: Vec<(String, TokenSums)> = Vec::new();
    let mut peaks: Vec<PeakRow> = Vec::new();
    let mut i: usize = 0;
    while i < a.len()
        invariant
            i <= a@.len(),
            all == derefs(a@),
            key_sorted(tokens@),
            forall|m: Seq<char>| #[trigger] has_key(tokens@, m) <==> has_direct(all.subrange(0, i as int), m),
            forall|m: Seq<char>| #[trigger] value_at(tokens@, m) matches Some(t)
                ==> agrees(t, |f: int| cap_u64(direct_sum(all.subrange(0, i as int), m, f))),
            peaks@.len() == first_keys(all.subrange(0, i as int)).len(),
            forall|j: int| 0 <= j < peaks@.len() ==> {
                let k = first_keys(all.subrange(0, i as int))[j];
                &&& (#[trigger] peaks@[j]).model@ == k.0
                &&& peaks@[j].id@ == k.1
                &&& agrees(peaks@[j].vals, |f: int| peak(all.subrange(0, i as int), k, f))
            },
        decreases a.len() - i,
    {
        let rec = a[i];
        let ghost pre = all.subrange(0, i as int);
        let ghost next = all.subrange(0, i + 1);
        proof {
            assert(next.drop_last() =~= pre);
            assert(next.last() == *rec);
        }
        match usage_parts(rec) {
            Some((model, Some(id), vals)) => {
                let ghost key = (model@, id@);
                let ghost fk = first_keys(pre);
                assert(usage_key(*rec) == Some(key));
                let mut j: usize = 0;
                while j < peaks.len() && !(str_eq(peaks[j].model.as_str(), model) && str_eq(peaks[j].id.as_str(), id))
                    invariant
                        j <= peaks@.len(),
                        peaks@.len() == fk.len(),
                        forall|q: int| 0 <= q < peaks@.len() ==> (#[trigger] peaks@[q]).model@ == fk[q].0 && peaks@[q].id@ == fk[q].1,
                        forall|q: int| 0 <= q < j ==> fk[q] != key,
                        key == (model@, id@),
                    decreases peaks.len() - j,
                {
                    proof {
                        assert(peaks@[j as int].model@ == fk[j as int].0 && peaks@[j as int].id@ == fk[j as int].1);
                        assert(peaks@[j as int].model@ == fk[j as int].0 && peaks@[j as int].id@ == fk[j as int].1);
                    }
                    j = j + 1;
                }
                if j < peaks.len() {
                    let old_vals = peaks[j].vals;
                    let m2 = peaks[j].model.clone();
                    let d2 = peaks[j].id.clone();
                    peaks.set(j, PeakRow { model: m2, id: d2, vals: max_sums(old_vals, vals) });
                    proof {
                        assert(fk[j as int] == key);
                        assert(fk.contains(key));
                        lemma_first_keys_distinct(pre);
                        assert(first_keys(next) == fk);
                        assert forall|q: int| 0 <= q < peaks@.len() implies {
                            let k = first_keys(next)[q];
                            &&& (#[trigger] peaks@[q]).model@ == k.0
                            &&& peaks@[q].id@ == k.1
                            &&& agrees(peaks@[q].vals, |f: int| peak(next, k, f))
                        } by {
                            if q != j {
                                assert(fk[q] != key);
                            }
                        }
                    }
                } else {
                    let item = PeakRow { model: model.to_string(), id: id.to_string(), vals };
                    peaks.push(item);
                    proof {
                        assert(!fk.contains(key));
                        assert(first_keys(next) == fk.push(key));
                        assert forall|q: int| 0 <= q < peaks@.len() implies {
                            let k = first_keys(next)[q];
                            &&& (#[trigger] peaks@[q]).model@ == k.0
                            &&& peaks@[q].id@ == k.1
                            &&& agrees(peaks@[q].vals, |f: int| peak(next, k, f))
                        } by {
                            if q < fk.len() {
                                assert(fk[q] != key);
                                assert(first_keys(next)[q] == fk[q]);
                            } else {
                                assert(peak(pre, key, 0) == 0) by { lemma_peak_absent(pre, key, 0); }
                                assert(peak(pre, key, 1) == 0) by { lemma_peak_absent(pre, key, 1); }
                                assert(peak(pre, key, 2) == 0) by { lemma_peak_absent(pre, key, 2); }
                                assert(peak(pre, key, 3) == 0) by { lemma_peak_absent(pre, key, 3); }
                            }
                        }
                    }
                }
                proof {
                    assert forall|m: Seq<char>| #[trigger] has_key(tokens@, m) <==> has_direct(next, m) by {
                        lemma_has_direct_step(next, m);
                    }
                    assert forall|m: Seq<char>| #[trigger] value_at(tokens@, m) is Some
                        implies agrees(value_at(tokens@, m)->0, |f: int| cap_u64(direct_sum(next, m, f))) by {}
                }
            },
            Some((model, None, vals)) => {
                let cur = match get(&tokens, model) {
                    Some(t) => t,
                    None => zero_sums(),
                };
                let ghost before = tokens@;
                put(&mut tokens, model, add_sums(cur, vals));
                proof {
                    assert forall|m: Seq<char>| #[trigger] has_key(tokens@, m) <==> has_direct(next, m) by {
                        lemma_has_direct_step(next, m);
                    }
                    assert forall|m: Seq<char>| #[trigger] value_at(tokens@, m) is Some
                        implies agrees(value_at(tokens@, m)->0, |f: int| cap_u64(direct_sum(next, m, f))) by {
                        lemma_direct_nonneg(pre, m, 0);
                        lemma_direct_nonneg(pre, m, 1);
                        lemma_direct_nonneg(pre, m, 2);
                        lemma_direct_nonneg(pre, m, 3);
                        if m == model@ && !has_direct(pre, m) {
                            lemma_direct_absent(pre, m, 0);
                            lemma_direct_absent(pre, m, 1);
                            lemma_direct_absent(pre, m, 2);
                            lemma_direct_absent(pre, m, 3);
                        }
                    }
                    assert(first_keys(next) == first_keys(pre));
                    assert forall|j: int| 0 <= j < peaks@.len() implies {
                        let k = first_keys(next)[j];
                        &&& (#[trigger] peaks@[j]).model@ == k.0
                        &&& peaks@[j].id@ == k.1
                        &&& agrees(peaks@[j].vals, |f: int| peak(next, k, f))
                    } by {}
                }
            },
            None => {
                proof {
                    assert forall|m: Seq<char>| #[trigger] has_key(tokens@, m) <==> has_direct(next, m) by {
                        lemma_has_direct_step(next, m);
                    }
                    assert(first_keys(next) == first_keys(pre));
                    assert forall|j: int| 0 <= j < peaks@.len() implies {
                        let k = first_keys(next)[j];
                        &&& (#[trigger] peaks@[j]).model@ == k.0
                        &&& peaks@[j].id@ == k.1
                        &&& agrees(peaks@[j].vals, |f: int| peak(next, k, f))
                    } by {}
                }
            },
        }
        i = i + 1;
    }
    proof {
        assert(all.subrange(0, a@.len() as int) =~= all);
    }
    let ghost fk = first_keys(all);
    let mut j: usize = 0;
    while j < peaks.len()
        invariant
            j <= peaks@.len(),
            peaks@.len() == fk.len(),
            fk == first_keys(all),
            forall|q: int| 0 <= q < peaks@.len() ==> {
                let k = fk[q];
                &&& (#[trigger] peaks@[q]).model@ == k.0
                &&& peaks@[q].id@ == k.1
                &&& agrees(peaks@[q].vals, |f: int| peak(all, k, f))
            },
            key_sorted(tokens@),
            forall|m: Seq<char>| #[trigger] has_key(tokens@, m) <==>
                (has_direct(all, m) || exists|q: int| 0 <= q < j && (#[trigger] fk[q]).0 == m),
            forall|m: Seq<char>| #[trigger] value_at(tokens@, m) matches Some(t)
                ==> agrees(t, |f: int| cap_u64(direct_sum(all, m, f) + keyed_sum(fk.take(j as int), all, m, f))),
        decreases peaks.len() - j,
    {
        let row = &peaks[j];
        let model = row.model.as_str();
        let cur = match get(&tokens, model) {
            Some(t) => t,
            None => zero_sums(),
        };
        put(&mut tokens, model, add_sums(cur, row.vals));
        proof {
            let k = fk[j as int];
            assert(fk.take(j + 1).drop_last() =~= fk.take(j as int));
            assert(fk.take(j + 1).last() == k);
            assert forall|m: Seq<char>| #[trigger] has_key(tokens@, m) <==>
                (has_direct(all, m) || exists|q: int| 0 <= q < j + 1 && (#[trigger] fk[q]).0 == m) by {
                if exists|q: int| 0 <= q < j + 1 && (#[trigger] fk[q]).0 == m {
                    let q = choose|q: int| 0 <= q < j + 1 && (#[trigger] fk[q]).0 == m;
                    if q < j {
                        assert(exists|q: int| 0 <= q < j && (#[trigger] fk[q]).0 == m);
                    }
                }
            }
            assert forall|m: Seq<char>| #[trigger] value_at(tokens@, m) is Some
                implies agrees(value_at(tokens@, m)->0, |f: int| cap_u64(direct_sum(all, m, f) + keyed_sum(fk.take(j + 1), all, m, f))) by {
                lemma_direct_nonneg(all, m, 0);
                lemma_direct_nonneg(all, m, 1);
                lemma_direct_nonneg(all, m, 2);
                lemma_direct_nonneg(all, m, 3);
                lemma_keyed_nonneg(fk.take(j as int), all, m, 0);
                lemma_keyed_nonneg(fk.take(j as int), all, m, 1);
                lemma_keyed_nonneg(fk.take(j as int), all, m, 2);
                lemma_keyed_nonneg(fk.take(j as int), all, m, 3);
                lemma_peak_bounds(all, k, 0);
                lemma_peak_bounds(all, k, 1);
                lemma_peak_bounds(all, k, 2);
                lemma_peak_bounds(all, k, 3);
                if m == k.0 && !(has_direct(all, m) || exists|q: int| 0 <= q < j && (#[trigger] fk[q]).0 == m) {
                    lemma_direct_absent(all, m, 0);
                    lemma_direct_absent(all, m, 1);
                    lemma_direct_absent(all, m, 2);
                    lemma_direct_absent(all, m, 3);
                    lemma_keyed_absent(fk.take(j as int), all, m, 0);
                    lemma_keyed_absent(fk.take(j as int), all, m, 1);
                    lemma_keyed_absent(fk.take(j as int), all, m, 2);
                    lemma_keyed_absent(fk.take(j as int), all, m, 3);
                }
            }
        }
        j = j + 1;
    }
    proof {
        assert(fk.take(fk.len() as int) =~= fk);
        assert forall|m: Seq<char>| #[trigger] has_key(tokens@, m) <==> has_usage(all, m) by {
            lemma_has_usage(all, m);
        }
    }
    tokens
}

/// No dedupe key occurs twice among the first occurrences.
proof fn lemma_first_keys_distinct(a: Seq<Record>)
    ensures
        forall|p: int, q: int| 0 <= p < q < first_keys(a).len() ==> #[trigger] first_keys(a)[p] != #[trigger] first_keys(a)[q],
    decreases a.len(),
{
    if a.len() > 0 {
        let pre = a.drop_last();
        lemma_first_keys_distinct(pre);
        let fp = first_keys(pre);
        let fa = first_keys(a);
        assert forall|p: int, q: int| 0 <= p < q < fa.len() implies #[trigger] fa[p] != #[trigger] fa[q] by {
            if q < fp.len() {
                assert(fa[p] == fp[p] && fa[q] == fp[q]);
            } else {
                assert(fa[p] == fp[p]);
                if fa[p] == fa[q] {
                    assert(fp.contains(fa[q]));
                }
            }
        }
    }
}

proof fn lemma_has_direct_step(a: Seq<Record>, m: Seq<char>)
    requires
        a.len() > 0,
    ensures
        has_direct(a, m) <==> (has_direct(a.drop_last(), m) || (usage_of(a.last()) is Some
            && usage_id(a.last()) is None && model_key(a.last()) == m)),
{
    let p = a.drop_last();
    if has_direct(a, m) {
        let i = choose|i: int| 0 <= i < a.len() && usage_of(#[trigger] a[i]) is Some && usage_id(a[i]) is None && model_key(a[i]) == m;
        if i < p.len() {
            assert(p[i] == a[i]);
        }
    }
    if has_direct(p, m) {
        let i = choose|i: int| 0 <= i < p.len() && usage_of(#[trigger] p[i]) is Some && usage_id(p[i]) is None && model_key(p[i]) == m;
        assert(a[i] == p[i]);
    }
    if usage_of(a.last()) is Some && usage_id(a.last()) is None && model_key(a.last()) == m {
        assert(a[a.len() - 1] == a.last());
    }
}

proof fn lemma_direct_absent(a: Seq<Record>, m: Seq<char>, f: int)
    requires
        !has_direct(a, m),
    ensures
        direct_sum(a, m, f) == 0,
    decreases a.len(),
{
    if a.len() > 0 {
        lemma_has_direct_step(a, m);
        lemma_direct_absent(a.drop_last(), m, f);
    }
}

proof fn lemma_keyed_absent(keys: Seq<(Seq<char>, Seq<char>)>, a: Seq<Record>, m: Seq<char>, f: int)
    requires
        !exists|q: int| 0 <= q < keys.len() && (#[trigger] keys[q]).0 == m,
    ensures
        keyed_sum(keys, a, m, f) == 0,
    decreases keys.len(),
{
    if keys.len() > 0 {
        let p = keys.drop_last();
        assert forall|q: int| 0 <= q < p.len() implies (#[trigger] p[q]).0 != m by {
            assert(p[q] == keys[q]);
        }
        assert(keys[keys.len() - 1] == keys.last());
        lemma_keyed_absent(p, a, m, f);
    }
}

proof fn lemma_peak_absent(a: Seq<Record>, k: (Seq<char>, Seq<char>), f: int)
    requires
        !first_keys(a).contains(k),
    ensures
        peak(a, k, f) == 0,
    decreases a.len(),
{
    if a.len() > 0 {
        let p = a.drop_last();
        if first_keys(p).contains(k) {
            let q = choose|q: int| 0 <= q < first_keys(p).len() && first_keys(p)[q] == k;
            assert(first_keys(a)[q] == k);
        }
        if usage_key(a.last()) == Some(k) {
            if !first_keys(p).contains(k) {
                assert(first_keys(a)[first_keys(p).len() as int] == k);
            }
        }
        lemma_peak_absent(p, k, f);
    }
}

proof fn lemma_keyed_same_peaks(keys: Seq<(Seq<char>, Seq<char>)>, a: Seq<Record>, b: Seq<Record>, m: Seq<char>, f: int)
    requires
        forall|k: (Seq<char>, Seq<char>)| #[trigger] peak(a, k, f) == peak(b, k, f),
    ensures
        keyed_sum(keys, a, m, f) == keyed_sum(keys, b, m, f),
    decreases keys.len(),
{
    if keys.len() > 0 {
        lemma_keyed_same_peaks(keys.drop_last(), a, b, m, f);
        assert(peak(a, keys.last(), f) == peak(b, keys.last(), f));
    }
}

/// Usage deduplication law: a further record of an API message already counted, whose
/// usage is no larger than what was counted for it field by field (an identical repeat,
/// or a replayed copy with zeroed usage), changes no model's totals and no model's
/// presence.
pub proof fn lemma_repeat_usage_changes_nothing(a: Seq<Record>, r: Record)
    requires
        usage_key(r) is Some,
        first_keys(a).contains(usage_key(r)->0),
        forall|f: int| 0 <= f < 4 ==> ufield(usage_of(r)->0, f) <= #[trigger] peak(a, usage_key(r)->0, f),
    ensures
        forall|m: Seq<char>, f: int| 0 <= f < 4 ==> #[trigger] token_total(a.push(r), m, f) == token_total(a, m, f),
        forall|m: Seq<char>| #[trigger] has_usage(a.push(r), m) == has_usage(a, m),
{
    let b = a.push(r);
    let k = usage_key(r)->0;
    assert(b.drop_last() =~= a);
    assert(b.last() == r);
    assert(first_keys(b) == first_keys(a));
    assert forall|m: Seq<char>, f: int| 0 <= f < 4 implies #[trigger] token_total(b, m, f) == token_total(a, m, f) by {
        assert forall|kk: (Seq<char>, Seq<char>)| #[trigger] peak(b, kk, f) == peak(a, kk, f) by {
            if kk == k {
                assert(ufield(usage_of(r)->0, f) <= peak(a, k, f));
            }
        }
        lemma_keyed_same_peaks(first_keys(a), b, a, m, f);
    }
    assert forall|m: Seq<char>| #[trigger] has_usage(b, m) == has_usage(a, m) by {
        if has_usage(b, m) && !has_usage(a, m) {
            let i = choose|i: int| 0 <= i < b.len() && usage_of(#[trigger] b[i]) is Some && model_key(b[i]) == m;
            if i < a.len() {
                assert(a[i] == b[i]);
            } else {
                lemma_has_usage(a, m);
                let q = choose|q: int| 0 <= q < first_keys(a).len() && first_keys(a)[q] == k;
                assert(first_keys(a)[q].0 == m);
            }
        }
        if has_usage(a, m) {
            let i = choose|i: int| 0 <= i < a.len() && usage_of(#[trigger] a[i]) is Some && model_key(a[i]) == m;
            assert(b[i] == a[i]);
        }
    }
}

} // verus!
