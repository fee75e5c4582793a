//! `--siblings`: a matched turn's other records as context rows, under the fixed policy
//! (message classes always render; chattier machinery keeps its first few per leaf, the
//! rest counted).

use vstd::prelude::*;
use crate::labels::{sibling_cap, spec_is_message_class, spec_role, spec_sibling_cap, Class, Role};
use crate::model::opt_view;
use crate::search::filter::LabelFilter;
use crate::search::hits::{backfill_address, collect_record_hits, hit_content, hit_matches, message_model, record_emissions, with_address,
    matching, EmissionView, RecordView};
use crate::search::matcher::Matcher;
use crate::search::rows::Kept;
use crate::search::types::Hit;

verus! {

/// The matching emissions of the records among the first `n` that are not in `hit_idxs`,
/// each with its record's index.
pub open spec fn sibling_units(rs: Seq<Kept>, vs: Seq<RecordView>, hit_idxs: Seq<usize>, f: LabelFilter,
    names: Seq<(String, String)>, m: Matcher, n: int) -> Seq<(int, EmissionView)>
    decreases n,
{
    if n <= 0 {
        seq![]
    } else {
        sibling_units(rs, vs, hit_idxs, f, names, m, n - 1) + if hit_idxs.contains((n - 1) as usize) {
            seq![]
        } else {
            matching(record_emissions(rs[n - 1].rec, vs[n - 1], f, names), m).map_values(|e: EmissionView| (n - 1, e))
        }
    }
}

/// A sibling hit: the emission's content, addressed at its record.
pub open spec fn sibling_hit_ok(h: Hit, u: (int, EmissionView), rs: Seq<Kept>, vs: Seq<RecordView>, m: Matcher, max: nat) -> bool {
    let k = rs[u.0];
    &&& hit_content(h, u.1, m, max, vs[u.0].labels@, opt_view(k.rec.timestamp), message_model(k.rec))
    &&& h.line == k.line_no
    &&& h.uuid == k.rec.uuid
    &&& h.from_sidecar == k.from_sidecar
}

fn contains_index(v: &Vec<usize>, i: usize) -> (b: bool)
    ensures
        b == v@.contains(i),
{
    let mut k: usize = 0;
    while k < v.len()
        invariant
            k <= v@.len(),
            forall|j: int| 0 <= j < k ==> v@[j] != i,
        decreases v.len() - k,
    {
        if v[k] == i {
            assert(v@[k as int] == i);
            return true;
        }
        k = k + 1;
    }
    false
}

/// The hits of a turn's records other than those in `hit_idxs`, each addressed at its
/// record, in record order.
pub fn sibling_hits(records: &[Kept], views: &Vec<RecordView>, hit_idxs: &Vec<usize>, filter: &LabelFilter,
    matcher: &Matcher, excerpt_max: usize, names: &Vec<(String, String)>) -> (out: Vec<Hit>)
    requires
        views@.len() == records@.len(),
    ensures
        ({
            let us = sibling_units(records@, views@, hit_idxs@, *filter, names@, *matcher, records@.len() as int);
            &&& out@.len() == us.len()
            &&& forall|j: int| 0 <= j < us.len() ==> sibling_hit_ok(#[trigger] out@[j], us[j], records@, views@, *matcher,
                excerpt_max as nat)
        }),
{
    let mut sibs: Vec<Hit> = Vec::new();
    let mut i: usize = 0;
    while i < records.len()
        invariant
            i <= records@.len(),
            views@.len() == records@.len(),
            sibs@.len() == sibling_units(records@, views@, hit_idxs@, *filter, names@, *matcher, i as int).len(),
            forall|j: int| 0 <= j < sibs@.len() ==> sibling_hit_ok(#[trigger] sibs@[j],
                sibling_units(records@, views@, hit_idxs@, *filter, names@, *matcher, i as int)[j], records@, views@, *matcher,
                excerpt_max as nat),
        decreases records.len() - i,
    {
        let ghost us = sibling_units(records@, views@, hit_idxs@, *filter, names@, *matcher, i as int);
        if !contains_index(hit_idxs, i) {
            let ghost ms = matching(record_emissions(records@[i as int].rec, views@[i as int], *filter, names@), *matcher);
            let ghost before = sibs@;
            let from = sibs.len();
            collect_record_hits(&records[i].rec, &views[i], filter, matcher, excerpt_max, names, &mut sibs);
            let ghost mid = sibs@;
            backfill_address(&mut sibs, from, &records[i]);
            proof {
                let us2 = sibling_units(records@, views@, hit_idxs@, *filter, names@, *matcher, i + 1);
                assert(us2 == us + ms.map_values(|e: EmissionView| (i as int, e)));
                assert forall|j: int| 0 <= j < sibs@.len() implies sibling_hit_ok(#[trigger] sibs@[j], us2[j], records@, views@,
                    *matcher, excerpt_max as nat) by {
                    if j < before.len() {
                        assert(sibs@[j] == mid[j]);
                        assert(mid[j] == before[j]);
                        assert(us2[j] == us[j]);
                    } else {
                        let k = j - before.len();
                        assert(hit_matches(mid[before.len() + k], ms[k], *matcher, excerpt_max as nat,
                            views@[i as int].labels@, opt_view(records@[i as int].rec.timestamp), message_model(records@[i as int].rec)));
                        assert(sibs@[j] == with_address(mid[j], records@[i as int].line_no, records@[i as int].rec.uuid,
                            records@[i as int].from_sidecar));
                        assert(us2[j] == (i as int, ms[j - before.len()]));
                    }
                }
            }
        } else {
            assert(sibling_units(records@, views@, hit_idxs@, *filter, names@, *matcher, i + 1) =~= us);
        }
        i = i + 1;
    }
    sibs
}

/// How many of the first `i` hits carry class `c`.
pub open spec fn class_count_before(hs: Seq<Hit>, c: Class, i: int) -> nat
    decreases i,
{
    if i <= 0 {
        0
    } else {
        class_count_before(hs, c, i - 1) + if hs[i - 1].class == Some(c) { 1nat } else { 0nat }
    }
}

/// Does hit `i` survive the fixed policy: an uncapped class always, a capped one while
/// fewer than its cap of that class came before.
pub open spec fn keep_sibling(hs: Seq<Hit>, i: int) -> bool {
    match hs[i].class {
        Some(c) => match spec_sibling_cap(c) {
            Some(k) => class_count_before(hs, c, i) < k,
            None => true,
        },
        None => true,
    }
}

/// The surviving hits among the first `n`, in order.
pub open spec fn kept_siblings(hs: Seq<Hit>, n: int) -> Seq<Hit>
    decreases n,
{
    if n <= 0 {
        seq![]
    } else {
        kept_siblings(hs, n - 1) + if keep_sibling(hs, n - 1) { seq![hs[n - 1]] } else { seq![] }
    }
}

fn keep_flags(hs: &Vec<Hit>) -> (flags: Vec<bool>)
    ensures
        flags@.len() == hs@.len(),
        forall|i: int| 0 <= i < hs@.len() ==> #[trigger] flags@[i] == keep_sibling(hs@, i),
{
    let mut flags: Vec<bool> = Vec::new();
    let mut i: usize = 0;
    while i < hs.len()
        invariant
            i <= hs@.len(),
            flags@.len() == i,
            forall|j: int| 0 <= j < i ==> #[trigger] flags@[j] == keep_sibling(hs@, j),
        decreases hs.len() - i,
    {
        let keep = match hs[i].class {
            Some(c) => match sibling_cap(c) {
                Some(cap) => {
                    let mut n: usize = 0;
                    let mut j: usize = 0;
                    while j < i
                        invariant
                            j <= i < hs@.len(),
                            n == class_count_before(hs@, c, j as int),
                            n <= j,
                        decreases i - j,
                    {
                        if hs[j].class == Some(c) {
                            n = n + 1;
                        }
                        j = j + 1;
                    }
                    n < cap
                },
                None => true,
            },
            None => true,
        };
        flags.push(keep);
        i = i + 1;
    }
    flags
}

/// Apply the fixed sibling policy: the surviving hits in order, and how many were capped
/// away.
pub fn cap_siblings(sibs: Vec<Hit>) -> (r: (Vec<Hit>, usize))
    ensures
        r.0@ == kept_siblings(sibs@, sibs@.len() as int),
        r.1 == sibs@.len() - r.0@.len(),
{
    let ghost hs = sibs@;
    let flags = keep_flags(&sibs);
    let mut sibs = sibs;
    let mut buf: Vec<Hit> = Vec::new();
    let mut k: usize = sibs.len();
    while k > 0
        invariant
            k <= hs.len(),
            sibs@ == hs.subrange(0, k as int),
            buf@.len() == hs.len() - k,
            forall|m: int| 0 <= m < buf@.len() ==> #[trigger] buf@[m] == hs[hs.len() - 1 - m],
        decreases k,
    {
        let h = sibs.pop().unwrap();
        buf.push(h);
        k = k - 1;
    }
    let n = flags.len();
    let mut out: Vec<Hit> = Vec::new();
    let mut hidden: usize = 0;
    let mut i: usize = 0;
    while i < n
        invariant
            i <= hs.len(),
            n == hs.len(),
            flags@.len() == hs.len(),
            forall|j: int| 0 <= j < hs.len() ==> #[trigger] flags@[j] == keep_sibling(hs, j),
            buf@.len() == hs.len() - i,
            forall|m: int| 0 <= m < buf@.len() ==> #[trigger] buf@[m] == hs[hs.len() - 1 - m],
            out@ == kept_siblings(hs, i as int),
            hidden == i - out@.len(),
        decreases n - i,
    {
        let h = buf.pop().unwrap();
        assert(h == hs[i as int]);
        if flags[i] {
            out.push(h);
        } else {
            hidden = hidden + 1;
        }
        i = i + 1;
    }
    (out, hidden)
}

/// `sibs` are the sibling hits of the records not in `hit_idxs` under the all-label
/// filter `f` and the pattern-less matcher `m`.
pub open spec fn siblings_from(rs: Seq<Kept>, vs: Seq<RecordView>, hit_idxs: Seq<usize>, names: Seq<(String, String)>,
    max: nat, f: LabelFilter, m: Matcher, sibs: Seq<Hit>) -> bool {
    let us = sibling_units(rs, vs, hit_idxs, f, names, m, rs.len() as int);
    &&& f.wanted@.len() == 0 && f.exclude@.len() == 0
    &&& m.regex is None && m.prefilter is None
    &&& sibs.len() == us.len()
    &&& forall|j: int| 0 <= j < us.len() ==> sibling_hit_ok(#[trigger] sibs[j], us[j], rs, vs, m, max)
}

/// A matched turn's other records as sibling rows: every unit of each record not in
/// `hit_idxs` under every label (the `-t`/`-T` filter does not apply), with a head
/// excerpt, addressed at its record; then the fixed policy, whose capped-away count comes
/// back with the rows.
pub fn collect_turn_siblings(records: &[Kept], views: &Vec<RecordView>, hit_idxs: &Vec<usize>, excerpt_max: usize,
    names: &Vec<(String, String)>) -> (r: (Vec<Hit>, usize))
    requires
        views@.len() == records@.len(),
    ensures
        exists|f: LabelFilter, m: Matcher, sibs: Seq<Hit>| #[trigger] siblings_from(records@, views@, hit_idxs@, names@,
            excerpt_max as nat, f, m, sibs)
            && r.0@ == kept_siblings(sibs, sibs.len() as int) && r.1 == sibs.len() - r.0@.len(),
{
    let all = LabelFilter::all();
    let pure = Matcher::pure();
    let sibs = sibling_hits(records, views, hit_idxs, &all, &pure, excerpt_max, names);
    let ghost sv = sibs@;
    let r = cap_siblings(sibs);
    assert(siblings_from(records@, views@, hit_idxs@, names@, excerpt_max as nat, all, pure, sv));
    r
}


/// A record that matched is never repeated as a sibling: every sibling unit comes from a
/// record outside `hit_idxs`.
pub proof fn lemma_matched_records_not_repeated(rs: Seq<Kept>, vs: Seq<RecordView>, hit_idxs: Seq<usize>, f: LabelFilter,
    names: Seq<(String, String)>, m: Matcher, n: int)
    requires
        0 <= n <= rs.len(),
    ensures
        forall|j: int| 0 <= j < sibling_units(rs, vs, hit_idxs, f, names, m, n).len() ==> {
            let u = #[trigger] sibling_units(rs, vs, hit_idxs, f, names, m, n)[j];
            0 <= u.0 < n && !hit_idxs.contains(u.0 as usize)
        },
    decreases n,
{
    if n > 0 {
        lemma_matched_records_not_repeated(rs, vs, hit_idxs, f, names, m, n - 1);
        let p = sibling_units(rs, vs, hit_idxs, f, names, m, n - 1);
        let us = sibling_units(rs, vs, hit_idxs, f, names, m, n);
        assert forall|j: int| 0 <= j < us.len() implies {
            let u = #[trigger] us[j];
            0 <= u.0 < n && !hit_idxs.contains(u.0 as usize)
        } by {
            if j < p.len() {
                assert(us[j] == p[j]);
            }
        }
    }
}

/// The fixed policy never caps a message row: a user, agent-message or communication
/// sibling always renders.
pub proof fn lemma_message_siblings_render(hs: Seq<Hit>, i: int)
    requires
        0 <= i < hs.len(),
        hs[i].class matches Some(c) && spec_is_message_class(c),
    ensures
        keep_sibling(hs, i),
{
}

/// A capped leaf renders at most its cap: among the surviving rows, those of class `c`
/// number no more than `c`'s cap.
pub proof fn lemma_capped_leaf_bounded(hs: Seq<Hit>, c: Class, k: usize, n: int)
    requires
        spec_sibling_cap(c) == Some(k),
        0 <= n <= hs.len(),
    ensures
        class_count_before(kept_siblings(hs, n), c, kept_siblings(hs, n).len() as int) <= k,
        class_count_before(kept_siblings(hs, n), c, kept_siblings(hs, n).len() as int)
            <= class_count_before(hs, c, n),
    decreases n,
{
    if n > 0 {
        lemma_capped_leaf_bounded(hs, c, k, n - 1);
        let p = kept_siblings(hs, n - 1);
        let q = kept_siblings(hs, n);
        lemma_count_prefix(q, c, p.len() as int);
        if keep_sibling(hs, n - 1) {
            assert(q == p.push(hs[n - 1]));
            assert(q.take(p.len() as int) =~= p);
            lemma_count_take(q, c, p.len() as int);
            if hs[n - 1].class == Some(c) {
                lemma_count_le_kept(hs, c, n - 1);
            }
        } else {
            assert(q == p);
        }
    }
}

proof fn lemma_count_prefix(s: Seq<Hit>, c: Class, n: int)
    requires
        0 <= n <= s.len(),
    ensures
        class_count_before(s, c, n) <= class_count_before(s, c, s.len() as int),
    decreases s.len() - n,
{
    if n < s.len() {
        lemma_count_prefix(s, c, n + 1);
    }
}

proof fn lemma_count_take(s: Seq<Hit>, c: Class, n: int)
    requires
        0 <= n <= s.len(),
    ensures
        class_count_before(s.take(n), c, n) == class_count_before(s, c, n),
    decreases n,
{
    if n > 0 {
        lemma_count_take(s, c, n - 1);
        assert(s.take(n).take(n - 1) =~= s.take(n - 1));
        lemma_take_count_eq(s.take(n), c, n - 1);
    }
}

proof fn lemma_take_count_eq(s: Seq<Hit>, c: Class, n: int)
    requires
        0 <= n <= s.len(),
    ensures
        class_count_before(s.take(n), c, n) == class_count_before(s, c, n),
    decreases n,
{
    if n > 0 {
        lemma_take_count_eq(s, c, n - 1);
        assert(s.take(n)[n - 1] == s[n - 1]);
        assert(s.take(n).take(n - 1) =~= s.take(n - 1));
        lemma_prefix_same(s.take(n), s, c, n - 1);
    }
}

proof fn lemma_prefix_same(a: Seq<Hit>, b: Seq<Hit>, c: Class, n: int)
    requires
        0 <= n <= a.len(),
        n <= b.len(),
        forall|i: int| 0 <= i < n ==> a[i] == b[i],
    ensures
        class_count_before(a, c, n) == class_count_before(b, c, n),
    decreases n,
{
    if n > 0 {
        lemma_prefix_same(a, b, c, n - 1);
    }
}

/// Before a kept row of a capped class, fewer than the cap of that class survive.
proof fn lemma_count_le_kept(hs: Seq<Hit>, c: Class, i: int)
    requires
        0 <= i < hs.len(),
        hs[i].class == Some(c),
        keep_sibling(hs, i),
    ensures
        class_count_before(kept_siblings(hs, i), c, kept_siblings(hs, i).len() as int) < class_count_before(hs, c, i) + 1,
{
    lemma_kept_count_le(hs, c, i);
}

proof fn lemma_kept_count_le(hs: Seq<Hit>, c: Class, n: int)
    requires
        0 <= n <= hs.len(),
    ensures
        class_count_before(kept_siblings(hs, n), c, kept_siblings(hs, n).len() as int) <= class_count_before(hs, c, n),
    decreases n,
{
    if n > 0 {
        lemma_kept_count_le(hs, c, n - 1);
        let p = kept_siblings(hs, n - 1);
        let q = kept_siblings(hs, n);
        if keep_sibling(hs, n - 1) {
            assert(q.take(p.len() as int) =~= p);
            lemma_take_count_eq(q, c, p.len() as int);
        }
    }
}

} // verus!
