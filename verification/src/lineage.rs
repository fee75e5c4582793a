//! Transcript lineage the agent leaves no field for: a clone minted by copying another
//! session at a compaction point, and a transcript a `/clear` opened, joined to the one
//! it was cleared from through the cost ledger's checkpoint.

use vstd::prelude::*;
use crate::chars::str_eq;
use crate::durations::{iso_millis, parse_iso_millis};
use crate::model::{opt_view, Record};
use crate::stats::counts::lex_lt;
use crate::stats::order::{isort, lemma_ins_at, lemma_isort_len, lemma_isort_multiset};
use crate::subagent::str_le;

verus! {

/// A compaction boundary: a `system` record of subtype `compact_boundary`.
pub open spec fn spec_is_compact_boundary(r: Record) -> bool {
    opt_view(r.record_type) == Some("system"@) && opt_view(r.subtype) == Some("compact_boundary"@)
}

pub fn is_compact_boundary(r: &Record) -> (b: bool)
    ensures
        b == spec_is_compact_boundary(*r),
{
    proof {
        reveal_strlit("system");
        reveal_strlit("compact_boundary");
    }
    let t = match &r.record_type {
        Some(t) => str_eq(t.as_str(), "system"),
        None => false,
    };
    let s = match &r.subtype {
        Some(s) => str_eq(s.as_str(), "compact_boundary"),
        None => false,
    };
    t && s
}

/// The index of the first record from `i` on that carries a timestamp.
pub open spec fn first_stamped(rs: Seq<Record>, i: int) -> Option<int>
    decreases rs.len() - i,
{
    if i < 0 || i >= rs.len() {
        None
    } else if rs[i].timestamp is Some {
        Some(i)
    } else {
        first_stamped(rs, i + 1)
    }
}

/// The clone law: a transcript whose first timestamped record is a compaction boundary
/// was minted by copying another session there; the boundary's (non-empty) uuid names
/// the copy point.
pub open spec fn spec_head_boundary(rs: Seq<Record>) -> Option<Seq<char>> {
    match first_stamped(rs, 0) {
        Some(k) => match rs[k].uuid {
            Some(u) => if spec_is_compact_boundary(rs[k]) && u@.len() > 0 { Some(u@) } else { None },
            None => None,
        },
        None => None,
    }
}

/// The copy point of a cloned transcript (its records in file order), if it is one.
pub fn clone_head_boundary(records: &Vec<Record>) -> (r: Option<String>)
    ensures
        opt_view(r) == spec_head_boundary(records@),
{
    let mut i: usize = 0;
    while i < records.len()
        invariant
            i <= records@.len(),
            first_stamped(records@, 0) == first_stamped(records@, i as int),
        decreases records.len() - i,
    {
        let rec = &records[i];
        if rec.timestamp.is_some() {
            if !is_compact_boundary(rec) {
                return None;
            }
            return match &rec.uuid {
                Some(u) => {
                    proof {
                        reveal_strlit("");
                    }
                    if str_eq(u.as_str(), "") {
                        None
                    } else {
                        assert(u@.len() > 0) by {
                            if u@.len() == 0 {
                                assert(u@ =~= ""@);
                            }
                        }
                        Some(u.clone())
                    }
                },
                None => None,
            };
        }
        i = i + 1;
    }
    None
}

/// A sibling transcript's facts for the origin join: its id, the records of its lines
/// that mention the copy point's uuid, and its own copy point when it is a clone too.
#[derive(Debug, Clone)]
pub struct OriginCandidate {
    pub session_id: String,
    pub carriers: Vec<Record>,
    pub head_boundary: Option<String>,
}

/// Does the sibling natively carry the boundary record (not a mere mention of its uuid),
/// without being a co-clone of the same copy point?
pub open spec fn is_origin(c: OriginCandidate, boundary: Seq<char>) -> bool {
    &&& exists|i: int| 0 <= i < c.carriers@.len() && opt_view(#[trigger] c.carriers@[i].uuid) == Some(boundary)
        && spec_is_compact_boundary(c.carriers@[i])
    &&& opt_view(c.head_boundary) != Some(boundary)
}

/// The first sibling (in the order given) that is the clone's origin.
pub open spec fn first_origin(cs: Seq<OriginCandidate>, boundary: Seq<char>, i: int) -> Option<Seq<char>>
    decreases cs.len() - i,
{
    if i < 0 || i >= cs.len() {
        None
    } else if is_origin(cs[i], boundary) {
        Some(cs[i].session_id@)
    } else {
        first_origin(cs, boundary, i + 1)
    }
}

fn carries(c: &OriginCandidate, boundary: &str) -> (b: bool)
    ensures
        b == exists|i: int| 0 <= i < c.carriers@.len() && opt_view(#[trigger] c.carriers@[i].uuid) == Some(boundary@)
            && spec_is_compact_boundary(c.carriers@[i]),
{
    let mut i: usize = 0;
    while i < c.carriers.len()
        invariant
            i <= c.carriers@.len(),
            forall|j: int| 0 <= j < i ==> !(opt_view(#[trigger] c.carriers@[j].uuid) == Some(boundary@)
                && spec_is_compact_boundary(c.carriers@[j])),
        decreases c.carriers.len() - i,
    {
        let r = &c.carriers[i];
        let same = match &r.uuid {
            Some(u) => str_eq(u.as_str(), boundary),
            None => false,
        };
        if same && is_compact_boundary(r) {
            return true;
        }
        i = i + 1;
    }
    false
}

/// Join a clone to its origin: the first sibling whose lines carry the boundary record
/// natively and that is not itself a clone of the same point.
pub fn clone_origin(siblings: &Vec<OriginCandidate>, boundary: &str) -> (r: Option<String>)
    ensures
        opt_view(r) == first_origin(siblings@, boundary@, 0),
{
    let mut i: usize = 0;
    while i < siblings.len()
        invariant
            i <= siblings@.len(),
            first_origin(siblings@, boundary@, 0) == first_origin(siblings@, boundary@, i as int),
        decreases siblings.len() - i,
    {
        let c = &siblings[i];
        let co_clone = match &c.head_boundary {
            Some(h) => str_eq(h.as_str(), boundary),
            None => false,
        };
        if carries(c, boundary) && !co_clone {
            return Some(c.session_id.clone());
        }
        i = i + 1;
    }
    None
}


/// The window a clear's checkpoint may sit in, either side of the wrapper instant.
pub const CLEAR_JOIN_WINDOW_MS: i64 = 2000;

/// What the `/clear` join concluded for one transcript.
#[derive(Debug, Clone)]
pub struct ClearJoin {
    /// The predecessor's id: `None` when nothing qualified or when two files tied.
    pub cleared_from: Option<String>,
    /// The distance in ms between the nearest checkpoint close and the wrapper.
    pub distance_ms: Option<i64>,
    /// True when that checkpoint closes after the wrapper instant.
    pub after: bool,
    /// The tied ids, when two files share the smallest distance.
    pub candidates: Vec<String>,
}

pub open spec fn abs_int(d: int) -> int {
    if d < 0 { -d } else { d }
}

/// Among the first `n` checkpoint closes, the first at the least distance from the
/// wrapper instant `t`, as `(distance, t - close)`; a close whose difference does not fit
/// in an `i64` is passed over.
pub open spec fn nearest(t: i64, cs: Seq<i64>, n: int) -> Option<(int, int)>
    decreases n,
{
    if n <= 0 {
        None
    } else {
        let p = nearest(t, cs, n - 1);
        let d = t - cs[n - 1];
        let closer = match p {
            Some(x) => abs_int(d) < x.0,
            None => true,
        };
        if -i64::MAX <= d <= i64::MAX && closer { Some((abs_int(d), d)) } else { p }
    }
}

/// The checkpoint close of a sibling nearest the wrapper instant, as `(distance, delta)`.
pub fn nearest_checkpoint_close(closes: &Vec<i64>, t_wrapper: i64) -> (r: Option<(i64, i64)>)
    ensures
        match r {
            Some(x) => nearest(t_wrapper, closes@, closes@.len() as int) == Some((x.0 as int, x.1 as int)) && x.0 >= 0,
            None => nearest(t_wrapper, closes@, closes@.len() as int) is None,
        },
{
    let mut best: Option<(i64, i64)> = None;
    let mut i: usize = 0;
    while i < closes.len()
        invariant
            i <= closes@.len(),
            match best {
                Some(x) => nearest(t_wrapper, closes@, i as int) == Some((x.0 as int, x.1 as int)) && x.0 >= 0,
                None => nearest(t_wrapper, closes@, i as int) is None,
            },
        decreases closes.len() - i,
    {
        let d: i128 = t_wrapper as i128 - closes[i] as i128;
        if -(i64::MAX as i128) <= d && d <= i64::MAX as i128 {
            let delta = d as i64;
            let dist: i64 = if delta < 0 { -delta } else { delta };
            let better = match best {
                None => true,
                Some(b) => dist < b.0,
            };
            if better {
                best = Some((dist, delta));
            }
        }
        i = i + 1;
    }
    best
}

pub type Qualifier = (int, int, Seq<char>);

/// The siblings among the first `n` whose nearest close lies within the window, as
/// `(distance, delta, id)` in the order given.
pub open spec fn qualifying(t: i64, sibs: Seq<(String, Vec<i64>)>, n: int) -> Seq<Qualifier>
    decreases n,
{
    if n <= 0 {
        seq![]
    } else {
        let p = qualifying(t, sibs, n - 1);
        match nearest(t, sibs[n - 1].1@, sibs[n - 1].1@.len() as int) {
            Some(x) => if x.0 <= CLEAR_JOIN_WINDOW_MS { p.push((x.0, x.1, sibs[n - 1].0@)) } else { p },
            None => p,
        }
    }
}

/// The least distance among the first `n` qualifiers.
pub open spec fn least(q: Seq<Qualifier>, n: int) -> int
    decreases n,
{
    if n <= 1 {
        q[0].0
    } else {
        let m = least(q, n - 1);
        if q[n - 1].0 < m { q[n - 1].0 } else { m }
    }
}

/// The qualifiers among the first `n` at distance `d`, in order.
pub open spec fn at_distance(q: Seq<Qualifier>, d: int, n: int) -> Seq<Qualifier>
    decreases n,
{
    if n <= 0 {
        seq![]
    } else {
        at_distance(q, d, n - 1) + if q[n - 1].0 == d { seq![q[n - 1]] } else { seq![] }
    }
}

/// Id order.
pub open spec fn id_before(a: Qualifier, b: Qualifier) -> bool {
    lex_lt(a.2, b.2)
}

/// The qualifiers at the least distance, in id order.
pub open spec fn nearest_ties(q: Seq<Qualifier>) -> Seq<Qualifier> {
    isort(at_distance(q, least(q, q.len() as int), q.len() as int), |a: Qualifier, b: Qualifier| id_before(a, b))
}

/// Join a `/clear`-opened transcript to the one it was cleared from: the sibling whose
/// cost checkpoint closes nearest the `/clear` wrapper's instant, within the window.
/// Two files tied at the least distance are reported and joined to neither; nothing is
/// joined when the wrapper's timestamp does not read as an instant or nothing qualifies.
pub open spec fn spec_clear_join(wrapper: Seq<char>, sibs: Seq<(String, Vec<i64>)>) -> (Option<Seq<char>>, Option<int>, bool, Seq<Seq<char>>) {
    match iso_millis(wrapper) {
        None => (None, None, false, seq![]),
        Some(t) => {
            let q = qualifying(t as i64, sibs, sibs.len() as int);
            if q.len() == 0 {
                (None, None, false, seq![])
            } else {
                let ties = nearest_ties(q);
                let first = ties[0];
                if ties.len() > 1 {
                    (None, Some(first.0), first.1 < 0, ties.map_values(|x: Qualifier| x.2))
                } else {
                    (Some(first.2), Some(first.0), first.1 < 0, seq![])
                }
            }
        },
    }
}

pub open spec fn join_view(j: ClearJoin) -> (Option<Seq<char>>, Option<int>, bool, Seq<Seq<char>>) {
    (opt_view(j.cleared_from), match j.distance_ms { Some(d) => Some(d as int), None => None }, j.after,
        j.candidates@.map_values(|s: String| s@))
}

pub open spec fn qual_views(v: Seq<(i64, i64, String)>) -> Seq<Qualifier> {
    v.map_values(|x: (i64, i64, String)| (x.0 as int, x.1 as int, x.2@))
}

fn sort_by_id(e: &Vec<(i64, i64, String)>) -> (out: Vec<(i64, i64, String)>)
    ensures
        qual_views(out@) == isort(qual_views(e@), |a: Qualifier, b: Qualifier| id_before(a, b)),
{
    let ghost lt = |a: Qualifier, b: Qualifier| id_before(a, b);
    let ghost input = qual_views(e@);
    let mut out: Vec<(i64, i64, String)> = Vec::new();
    let mut i: usize = 0;
    while i < e.len()
        invariant
            i <= e@.len(),
            input == qual_views(e@),
            lt == |a: Qualifier, b: Qualifier| id_before(a, b),
            qual_views(out@) == isort(input.take(i as int), lt),
        decreases e.len() - i,
    {
        let d = e[i].0;
        let delta = e[i].1;
        let id = e[i].2.clone();
        let ghost x = (d as int, delta as int, id@);
        assert(x == input[i as int]);
        let mut p: usize = 0;
        while p < out.len() && !(str_le(id.as_str(), out[p].2.as_str()) && !str_eq(id.as_str(), out[p].2.as_str()))
            invariant
                p <= out@.len(),
                x == (d as int, delta as int, id@),
                lt == |a: Qualifier, b: Qualifier| id_before(a, b),
                forall|q: int| 0 <= q < p ==> !lt(x, #[trigger] qual_views(out@)[q]),
            decreases out.len() - p,
        {
            assert(qual_views(out@)[p as int] == (out@[p as int].0 as int, out@[p as int].1 as int, out@[p as int].2@));
            p = p + 1;
        }
        proof {
            if p < out@.len() {
                assert(qual_views(out@)[p as int] == (out@[p as int].0 as int, out@[p as int].1 as int, out@[p as int].2@));
            }
            lemma_ins_at(qual_views(out@), x, lt, p as int);
            assert(input.take(i + 1).drop_last() =~= input.take(i as int));
        }
        let ghost before = out@;
        out.insert(p, (d, delta, id));
        proof {
            assert(qual_views(out@) =~= qual_views(before).take(p as int).push(x) + qual_views(before).skip(p as int));
        }
        i = i + 1;
    }
    assert(input.take(e@.len() as int) =~= input);
    out
}

fn qualifiers(t: i64, siblings: &Vec<(String, Vec<i64>)>) -> (q: Vec<(i64, i64, String)>)
    ensures
        qual_views(q@) == qualifying(t, siblings@, siblings@.len() as int),
        forall|k: int| 0 <= k < q@.len() ==> 0 <= (#[trigger] q@[k]).0 <= CLEAR_JOIN_WINDOW_MS,
{
    let mut q: Vec<(i64, i64, String)> = Vec::new();
    let mut i: usize = 0;
    while i < siblings.len()
        invariant
            i <= siblings@.len(),
            qual_views(q@) == qualifying(t, siblings@, i as int),
            forall|k: int| 0 <= k < q@.len() ==> 0 <= (#[trigger] q@[k]).0 <= CLEAR_JOIN_WINDOW_MS,
        decreases siblings.len() - i,
    {
        if let Some(x) = nearest_checkpoint_close(&siblings[i].1, t) {
            if x.0 <= CLEAR_JOIN_WINDOW_MS {
                let ghost before = q@;
                q.push((x.0, x.1, siblings[i].0.clone()));
                assert(qual_views(q@) =~= qual_views(before).push((x.0 as int, x.1 as int, siblings@[i as int].0@)));
            }
        }
        i = i + 1;
    }
    q
}

/// See [`spec_clear_join`]: `siblings` are the other transcripts of the project
/// directory, each with the close instants (epoch ms) of its cost checkpoints.
pub fn cleared_from_origin(wrapper_ts: &str, siblings: &Vec<(String, Vec<i64>)>) -> (j: ClearJoin)
    ensures
        join_view(j) == spec_clear_join(wrapper_ts@, siblings@),
{
    let none = ClearJoin { cleared_from: None, distance_ms: None, after: false, candidates: Vec::new() };
    assert(join_view(none).3 =~= Seq::<Seq<char>>::empty());
    let t = match parse_iso_millis(wrapper_ts) {
        Some(t) => t,
        None => return none,
    };
    let q = qualifiers(t, siblings);
    if q.len() == 0 {
        return none;
    }
    let ghost qv = qual_views(q@);
    let mut d: i64 = q[0].0;
    let mut i: usize = 1;
    while i < q.len()
        invariant
            1 <= i <= q@.len(),
            qv == qual_views(q@),
            d as int == least(qv, i as int),
        decreases q.len() - i,
    {
        if q[i].0 < d {
            d = q[i].0;
        }
        i = i + 1;
    }
    let mut tied: Vec<(i64, i64, String)> = Vec::new();
    let mut k: usize = 0;
    while k < q.len()
        invariant
            k <= q@.len(),
            qv == qual_views(q@),
            qual_views(tied@) == at_distance(qv, d as int, k as int),
        decreases q.len() - k,
    {
        if q[k].0 == d {
            let ghost before = tied@;
            tied.push((q[k].0, q[k].1, q[k].2.clone()));
            assert(qual_views(tied@) =~= qual_views(before).push(qv[k as int]));
        }
        k = k + 1;
    }
    let sorted = sort_by_id(&tied);
    proof {
        crate::stats::order::lemma_isort_len(qual_views(tied@), |a: Qualifier, b: Qualifier| id_before(a, b));
        lemma_tie_nonempty(qv, qv.len() as int);
    }
    assert(qual_views(sorted@) == nearest_ties(qv));
    assert(qual_views(sorted@)[0] == (sorted@[0].0 as int, sorted@[0].1 as int, sorted@[0].2@));
    if sorted.len() > 1 {
        let mut ids: Vec<String> = Vec::new();
        let mut m: usize = 0;
        while m < sorted.len()
            invariant
                m <= sorted@.len(),
                ids@.map_values(|s: String| s@) == qual_views(sorted@).take(m as int).map_values(|x: Qualifier| x.2),
            decreases sorted.len() - m,
        {
            let ghost before = ids@;
            assert(qual_views(sorted@)[m as int] == (sorted@[m as int].0 as int, sorted@[m as int].1 as int, sorted@[m as int].2@));
            assert(qual_views(sorted@).take(m + 1) =~= qual_views(sorted@).take(m as int).push(qual_views(sorted@)[m as int]));
            ids.push(sorted[m].2.clone());
            assert(ids@.map_values(|s: String| s@) =~= before.map_values(|s: String| s@).push(sorted@[m as int].2@));
            assert(ids@.map_values(|s: String| s@) =~= qual_views(sorted@).take(m + 1).map_values(|x: Qualifier| x.2));
            m = m + 1;
        }
        assert(qual_views(sorted@).take(sorted@.len() as int) =~= qual_views(sorted@));
        ClearJoin { cleared_from: None, distance_ms: Some(sorted[0].0), after: sorted[0].1 < 0, candidates: ids }
    } else {
        let j = ClearJoin { cleared_from: Some(sorted[0].2.clone()), distance_ms: Some(sorted[0].0), after: sorted[0].1 < 0,
            candidates: Vec::new() };
        assert(join_view(j).3 =~= Seq::<Seq<char>>::empty());
        j
    }
}

/// Some qualifier sits at the least distance.
proof fn lemma_tie_nonempty(q: Seq<Qualifier>, n: int)
    requires
        1 <= n <= q.len(),
    ensures
        at_distance(q, least(q, n), n).len() > 0,
    decreases n,
{
    if n > 1 {
        lemma_tie_nonempty(q, n - 1);
        let m = least(q, n - 1);
        if q[n - 1].0 >= m {
            assert(at_distance(q, m, n).len() >= at_distance(q, m, n - 1).len());
        }
    }
}


proof fn lemma_nearest_nonneg(t: i64, cs: Seq<i64>, n: int)
    ensures
        nearest(t, cs, n) matches Some(x) ==> x.0 >= 0,
    decreases n,
{
    if n > 0 {
        lemma_nearest_nonneg(t, cs, n - 1);
    }
}

proof fn lemma_qualifying_in_window(t: i64, sibs: Seq<(String, Vec<i64>)>, n: int)
    ensures
        forall|k: int| 0 <= k < qualifying(t, sibs, n).len() ==> 0 <= (#[trigger] qualifying(t, sibs, n)[k]).0 <= CLEAR_JOIN_WINDOW_MS,
    decreases n,
{
    if n > 0 {
        lemma_qualifying_in_window(t, sibs, n - 1);
        lemma_nearest_nonneg(t, sibs[n - 1].1@, sibs[n - 1].1@.len() as int);
        let p = qualifying(t, sibs, n - 1);
        let q = qualifying(t, sibs, n);
        assert forall|k: int| 0 <= k < q.len() implies 0 <= (#[trigger] q[k]).0 <= CLEAR_JOIN_WINDOW_MS by {
            if k < p.len() {
                assert(q[k] == p[k]);
            }
        }
    }
}

proof fn lemma_least_is_least(q: Seq<Qualifier>, n: int)
    requires
        1 <= n <= q.len(),
    ensures
        forall|k: int| 0 <= k < n ==> least(q, n) <= #[trigger] q[k].0,
        exists|k: int| 0 <= k < n && least(q, n) == #[trigger] q[k].0,
    decreases n,
{
    if n > 1 {
        lemma_least_is_least(q, n - 1);
    } else {
        assert(least(q, 1) == q[0].0);
    }
}

proof fn lemma_at_distance_elems(q: Seq<Qualifier>, d: int, n: int)
    requires
        0 <= n <= q.len(),
    ensures
        forall|k: int| 0 <= k < at_distance(q, d, n).len() ==> (#[trigger] at_distance(q, d, n)[k]).0 == d,
    decreases n,
{
    if n > 0 {
        lemma_at_distance_elems(q, d, n - 1);
        let p = at_distance(q, d, n - 1);
        let r = at_distance(q, d, n);
        assert forall|k: int| 0 <= k < r.len() implies (#[trigger] r[k]).0 == d by {
            if k < p.len() {
                assert(r[k] == p[k]);
            }
        }
    }
}

/// The `/clear` join is the nearest checkpoint within the window: the distance it reports
/// lies in the window and no qualifying sibling's checkpoint closes nearer; a predecessor
/// is named only when no other sibling ties it, and a tie names at least two.
pub proof fn lemma_clear_join_is_nearest(wrapper: Seq<char>, sibs: Seq<(String, Vec<i64>)>)
    ensures
        ({
            let j = spec_clear_join(wrapper, sibs);
            &&& j.1 matches Some(d) ==> {
                &&& 0 <= d <= CLEAR_JOIN_WINDOW_MS
                &&& iso_millis(wrapper) is Some
                &&& forall|k: int| 0 <= k < qualifying(iso_millis(wrapper)->0 as i64, sibs, sibs.len() as int).len()
                    ==> d <= (#[trigger] qualifying(iso_millis(wrapper)->0 as i64, sibs, sibs.len() as int)[k]).0
            }
            &&& j.0 is Some ==> j.1 is Some && j.3.len() == 0
            &&& j.3.len() > 0 ==> j.0 is None && j.3.len() > 1
        }),
{
    if let Some(t) = iso_millis(wrapper) {
        let q = qualifying(t as i64, sibs, sibs.len() as int);
        if q.len() > 0 {
            let lt = |a: Qualifier, b: Qualifier| id_before(a, b);
            let d = least(q, q.len() as int);
            let ad = at_distance(q, d, q.len() as int);
            lemma_tie_nonempty(q, q.len() as int);
            lemma_least_is_least(q, q.len() as int);
            lemma_qualifying_in_window(t as i64, sibs, sibs.len() as int);
            lemma_at_distance_elems(q, d, q.len() as int);
            lemma_isort_len(ad, lt);
            lemma_isort_multiset(ad, lt);
            let ties = isort(ad, lt);
            assert(ties.contains(ties[0]));
            ties.to_multiset_ensures();
            ad.to_multiset_ensures();
            assert(ties.to_multiset().count(ties[0]) > 0);
            assert(ad.to_multiset().count(ties[0]) > 0);
            assert(ad.contains(ties[0]));
            let k = choose|k: int| 0 <= k < ad.len() && ad[k] == ties[0];
            assert(ad[k].0 == d);
            let w = choose|w: int| 0 <= w < q.len() && d == #[trigger] q[w].0;
            assert(0 <= q[w].0 <= CLEAR_JOIN_WINDOW_MS);
        }
    }
}

} // verus!
