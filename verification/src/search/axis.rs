//! The `--count-by` census engine: per-axis record tallies over matched exchanges.

use vstd::prelude::*;
use crate::chars::{decimal, push_char, push_decimal, str_eq};
use crate::labels::{Class, spec_path};
use crate::model::opt_view;
use crate::search::census::{distinct_ids, distinct_session_count};
use crate::search::filter::{LabelFilter, spec_selected};
use crate::search::types::{Exchange, Hit, Pairing};
use crate::stats::counts::lex_lt;
use crate::stats::order::{ins, isort, lemma_ins_at, lemma_isort_len, lemma_isort_multiset};
use crate::stats::render::{by_count, count_first, entry_views};
use crate::subagent::str_le;
use crate::stats::tally::{bump, count_of, has_key, key_sorted};

verus! {

/// How many times `x` occurs in `s`.
pub open spec fn occ<T>(s: Seq<T>, x: T) -> nat
    decreases s.len(),
{
    if s.len() == 0 {
        0
    } else {
        occ(s.drop_last(), x) + if s.last() == x { 1nat } else { 0nat }
    }
}

/// The distinct elements of `s`, in first-seen order.
pub open spec fn dedup<T>(s: Seq<T>) -> Seq<T>
    decreases s.len(),
{
    if s.len() == 0 {
        seq![]
    } else {
        let d = dedup(s.drop_last());
        if d.contains(s.last()) { d } else { d.push(s.last()) }
    }
}

/// Each distinct element of `s` (first-seen order) with how often it occurs.
pub open spec fn tally<T>(s: Seq<T>) -> Seq<(T, usize)> {
    dedup(s).map_values(|k: T| (k, occ(s, k) as usize))
}

pub proof fn lemma_dedup_contains<T>(s: Seq<T>, x: T)
    ensures
        dedup(s).contains(x) <==> s.contains(x),
    decreases s.len(),
{
    if s.len() > 0 {
        lemma_dedup_contains(s.drop_last(), x);
        let d = dedup(s.drop_last());
        if s.contains(x) && !s.drop_last().contains(x) {
            let i = choose|i: int| 0 <= i < s.len() && s[i] == x;
            if i < s.len() - 1 {
                assert(s.drop_last()[i] == x);
            }
            if !d.contains(s.last()) {
                assert(d.push(s.last())[d.len() as int] == x);
            }
        }
        if s.drop_last().contains(x) {
            let i = choose|i: int| 0 <= i < s.drop_last().len() && s.drop_last()[i] == x;
            assert(s[i] == x);
            if !d.contains(s.last()) {
                let j = choose|j: int| 0 <= j < d.len() && d[j] == x;
                assert(d.push(s.last())[j] == x);
            }
        }
        if dedup(s).contains(x) && !d.contains(x) {
            assert(s[s.len() - 1] == x);
        }
    }
}

pub proof fn lemma_dedup_distinct<T>(s: Seq<T>)
    ensures
        forall|i: int, j: int| 0 <= i < j < dedup(s).len() ==> dedup(s)[i] != dedup(s)[j],
    decreases s.len(),
{
    if s.len() > 0 {
        lemma_dedup_distinct(s.drop_last());
        let d = dedup(s.drop_last());
        if !d.contains(s.last()) {
            assert forall|i: int, j: int| 0 <= i < j < dedup(s).len() implies dedup(s)[i] != dedup(s)[j] by {
                if j == d.len() {
                    assert(dedup(s)[j] == s.last());
                    assert(dedup(s)[i] == d[i]);
                }
            }
        }
    }
}

pub proof fn lemma_occ_absent<T>(s: Seq<T>, x: T)
    requires
        !s.contains(x),
    ensures
        occ(s, x) == 0,
    decreases s.len(),
{
    if s.len() > 0 {
        if s.drop_last().contains(x) {
            let i = choose|i: int| 0 <= i < s.drop_last().len() && s.drop_last()[i] == x;
            assert(s[i] == x);
        }
        if s.last() == x {
            assert(s[s.len() - 1] == x);
        }
        lemma_occ_absent(s.drop_last(), x);
    }
}

pub proof fn lemma_occ_le_len<T>(s: Seq<T>, x: T)
    ensures
        occ(s, x) <= s.len(),
    decreases s.len(),
{
    if s.len() > 0 {
        lemma_occ_le_len(s.drop_last(), x);
    }
}

/// Tallying one more element: its entry counts one more, or it is appended with a count
/// of one.
pub proof fn lemma_tally_push<T>(s: Seq<T>, x: T)
    requires
        s.len() + 1 <= usize::MAX,
    ensures
        dedup(s).contains(x) ==> (exists|i: int| 0 <= i < dedup(s).len() && dedup(s)[i] == x),
        forall|i: int| 0 <= i < dedup(s).len() && dedup(s)[i] == x ==>
            tally(s.push(x)) == tally(s).update(i, (x, (occ(s, x) + 1) as usize)),
        !dedup(s).contains(x) ==> tally(s.push(x)) == tally(s).push((x, 1usize)),
{
    let t = s.push(x);
    assert(t.drop_last() =~= s);
    lemma_dedup_distinct(s);
    lemma_occ_le_len(s, x);
    assert forall|y: T| #[trigger] occ(t, y) == occ(s, y) + if y == x { 1nat } else { 0nat } by {}
    assert forall|i: int| 0 <= i < dedup(s).len() && dedup(s)[i] == x implies
        tally(s.push(x)) == tally(s).update(i, (x, (occ(s, x) + 1) as usize)) by {
        assert(dedup(s).contains(x));
        assert(dedup(t) == dedup(s));
        assert forall|j: int| 0 <= j < dedup(s).len() && j != i implies #[trigger] dedup(s)[j] != x by {}
        assert(tally(t) =~= tally(s).update(i, (x, (occ(s, x) + 1) as usize)));
    }
    if !dedup(s).contains(x) {
        lemma_dedup_contains(s, x);
        lemma_occ_absent(s, x);
        assert(dedup(t) == dedup(s).push(x));
        assert forall|j: int| 0 <= j < dedup(s).len() implies #[trigger] dedup(s)[j] != x by {
            if dedup(s)[j] == x {
                assert(dedup(s).contains(x));
            }
        }
        assert(tally(t) =~= tally(s).push((x, 1usize)));
    }
}


/// Count one more occurrence of `k` in a first-seen tally of `ks`.
pub fn tally_add(t: &mut Vec<(String, usize)>, k: String, Ghost(ks): Ghost<Seq<Seq<char>>>)
    requires
        entry_views(old(t)@) == tally(ks),
        ks.len() + 1 <= usize::MAX,
    ensures
        entry_views(final(t)@) == tally(ks.push(k@)),
{
    proof {
        lemma_tally_push(ks, k@);
    }
    let mut i: usize = 0;
    while i < t.len()
        invariant
            i <= t@.len(),
            entry_views(t@) == tally(ks),
            ks.len() + 1 <= usize::MAX,
            forall|j: int| 0 <= j < i ==> dedup(ks)[j] != k@,
        decreases t.len() - i,
    {
        assert(entry_views(t@).len() == t@.len());
        assert(tally(ks).len() == dedup(ks).len());
        assert(entry_views(t@)[i as int] == (t@[i as int].0@, t@[i as int].1));
        assert(tally(ks)[i as int] == (dedup(ks)[i as int], occ(ks, dedup(ks)[i as int]) as usize));
        if str_eq(t[i].0.as_str(), k.as_str()) {
            proof {
                lemma_occ_le_len(ks, k@);
                lemma_tally_push(ks, k@);
                assert(dedup(ks)[i as int] == k@);
                assert(tally(ks)[i as int] == (k@, occ(ks, k@) as usize));
            }
            let n = t[i].1;
            assert(n == occ(ks, k@) as usize);
            assert(occ(ks, k@) < usize::MAX);
            assert(n == occ(ks, k@));
            let key = t[i].0.clone();
            let ghost before = t@;
            t.set(i, (key, n + 1));
            assert(entry_views(t@) =~= entry_views(before).update(i as int, (k@, (n + 1) as usize)));
            assert(tally(ks.push(k@)) == tally(ks).update(i as int, (k@, (occ(ks, k@) + 1) as usize)));
            return;
        }
        i = i + 1;
    }
    proof {
        lemma_tally_push(ks, k@);
    }
    assert(!dedup(ks).contains(k@));
    let ghost before = t@;
    t.push((k, 1));
    assert(entry_views(t@) =~= entry_views(before).push((k@, 1usize)));
}

pub open spec fn turn_views(e: Seq<(String, usize, usize)>) -> Seq<((Seq<char>, usize), usize)> {
    e.map_values(|p: (String, usize, usize)| ((p.0@, p.1), p.2))
}

/// Count one more occurrence of the turn `(sid, turn)` in a first-seen tally of `ks`.
pub fn turn_add(t: &mut Vec<(String, usize, usize)>, sid: String, turn: usize, Ghost(ks): Ghost<Seq<(Seq<char>, usize)>>)
    requires
        turn_views(old(t)@) == tally(ks),
        ks.len() + 1 <= usize::MAX,
    ensures
        turn_views(final(t)@) == tally(ks.push((sid@, turn))),
{
    let ghost k = (sid@, turn);
    let mut i: usize = 0;
    while i < t.len()
        invariant
            i <= t@.len(),
            turn_views(t@) == tally(ks),
            ks.len() + 1 <= usize::MAX,
            k == (sid@, turn),
            forall|j: int| 0 <= j < i ==> dedup(ks)[j] != k,
        decreases t.len() - i,
    {
        assert(turn_views(t@).len() == t@.len());
        assert(tally(ks).len() == dedup(ks).len());
        assert(turn_views(t@)[i as int] == ((t@[i as int].0@, t@[i as int].1), t@[i as int].2));
        assert(tally(ks)[i as int] == (dedup(ks)[i as int], occ(ks, dedup(ks)[i as int]) as usize));
        if t[i].1 == turn && str_eq(t[i].0.as_str(), sid.as_str()) {
            proof {
                lemma_occ_le_len(ks, k);
                lemma_tally_push(ks, k);
                assert(dedup(ks)[i as int] == k);
            }
            let n = t[i].2;
            assert(n == occ(ks, k) as usize);
            assert(n == occ(ks, k));
            let key = t[i].0.clone();
            let ghost before = t@;
            t.set(i, (key, turn, n + 1));
            assert(turn_views(t@) =~= turn_views(before).update(i as int, (k, (n + 1) as usize)));
            assert(tally(ks.push(k)) == tally(ks).update(i as int, (k, (occ(ks, k) + 1) as usize)));
            return;
        }
        i = i + 1;
    }
    proof {
        lemma_tally_push(ks, k);
    }
    assert(!dedup(ks).contains(k));
    let ghost before = t@;
    t.push((sid, turn, 1));
    assert(turn_views(t@) =~= turn_views(before).push((k, 1usize)));
}

/// The `--count-by` axes.
#[derive(Debug, Clone, Copy, PartialEq, Eq, Structural)]
pub enum CountAxis {
    /// Every selected leaf a record carries.
    Label,
    /// The tool a record used or answered.
    Tool,
    /// The turn a record belongs to.
    Turn,
    /// The transcript a record came from.
    Session,
    /// Whether a tool record's partner is in scope.
    Pairing,
    /// The model that wrote the record.
    Model,
}

/// Does hit `k` open a record group: the first hit, or one whose predecessor is
/// unlocated or on another physical line?
pub open spec fn opens_group(hits: Seq<Hit>, k: int) -> bool {
    k == 0 || hits[k - 1].line == 0 || hits[k].line != hits[k - 1].line
}

/// The first tool name within the record group, from hit `k` on.
pub open spec fn group_tool(hits: Seq<Hit>, k: int) -> Option<Seq<char>>
    decreases hits.len() - k,
{
    if k < 0 || k >= hits.len() {
        None
    } else if hits[k].tool_name is Some {
        opt_view(hits[k].tool_name)
    } else if k + 1 < hits.len() && !opens_group(hits, k + 1) {
        group_tool(hits, k + 1)
    } else {
        None
    }
}

/// The first pairing within the record group, from hit `k` on.
pub open spec fn group_pair(hits: Seq<Hit>, k: int) -> Option<Pairing>
    decreases hits.len() - k,
{
    if k < 0 || k >= hits.len() {
        None
    } else if hits[k].pair is Some {
        hits[k].pair
    } else if k + 1 < hits.len() && !opens_group(hits, k + 1) {
        group_pair(hits, k + 1)
    } else {
        None
    }
}

/// The first model within the record group, from hit `k` on.
pub open spec fn group_model(hits: Seq<Hit>, k: int) -> Option<Seq<char>>
    decreases hits.len() - k,
{
    if k < 0 || k >= hits.len() {
        None
    } else if hits[k].model is Some {
        opt_view(hits[k].model)
    } else if k + 1 < hits.len() && !opens_group(hits, k + 1) {
        group_model(hits, k + 1)
    } else {
        None
    }
}

pub open spec fn pairing_word(p: Pairing) -> Seq<char> {
    match p {
        Pairing::Paired => "paired"@,
        Pairing::PendingNoResult => "pending"@,
        Pairing::OrphanResult => "orphan"@,
    }
}

/// The paths of the first `n` labels that the filter selects, in order.
pub open spec fn selected_paths(ls: Seq<Class>, f: LabelFilter, n: int) -> Seq<Seq<char>>
    decreases n,
{
    if n <= 0 {
        seq![]
    } else {
        let p = selected_paths(ls, f, n - 1);
        if spec_selected(f, spec_path(ls[n - 1])) { p.push(spec_path(ls[n - 1])) } else { p }
    }
}

/// The keys the record group opening at hit `s` contributes; `None` for a record outside
/// the axis (no tool, no pairing, no model). The turn axis is tallied apart.
pub open spec fn group_keys(hits: Seq<Hit>, s: int, sid: Seq<char>, axis: CountAxis, f: LabelFilter) -> Option<Seq<Seq<char>>> {
    match axis {
        CountAxis::Label => Some(selected_paths(hits[s].labels@, f, hits[s].labels@.len() as int)),
        CountAxis::Tool => match group_tool(hits, s) {
            Some(t) => Some(seq![t]),
            None => None,
        },
        CountAxis::Turn => Some(seq![]),
        CountAxis::Session => Some(seq![sid]),
        CountAxis::Pairing => match group_pair(hits, s) {
            Some(p) => Some(seq![pairing_word(p)]),
            None => None,
        },
        CountAxis::Model => match group_model(hits, s) {
            Some(m) => Some(seq![m]),
            None => None,
        },
    }
}

/// Is the record group opening at hit `s` inside the axis's domain?
pub open spec fn in_domain(hits: Seq<Hit>, s: int, axis: CountAxis, turn: Option<usize>) -> bool {
    match axis {
        CountAxis::Turn => turn is Some,
        CountAxis::Tool => group_tool(hits, s) is Some,
        CountAxis::Pairing => group_pair(hits, s) is Some,
        CountAxis::Model => group_model(hits, s) is Some,
        CountAxis::Label | CountAxis::Session => true,
    }
}

/// The keys of the record groups opening among the first `n` hits.
pub open spec fn hits_keys(hits: Seq<Hit>, sid: Seq<char>, axis: CountAxis, f: LabelFilter, n: int) -> Seq<Seq<char>>
    decreases n,
{
    if n <= 0 {
        seq![]
    } else {
        let p = hits_keys(hits, sid, axis, f, n - 1);
        if opens_group(hits, n - 1) {
            match group_keys(hits, n - 1, sid, axis, f) {
                Some(ks) => p + ks,
                None => p,
            }
        } else {
            p
        }
    }
}

/// The number of record groups opening among the first `n` hits.
pub open spec fn hits_groups(hits: Seq<Hit>, n: int) -> nat
    decreases n,
{
    if n <= 0 {
        0
    } else {
        hits_groups(hits, n - 1) + if opens_group(hits, n - 1) { 1nat } else { 0nat }
    }
}

/// The number of record groups opening among the first `n` hits that lie outside the axis.
pub open spec fn hits_outside(hits: Seq<Hit>, axis: CountAxis, turn: Option<usize>, n: int) -> nat
    decreases n,
{
    if n <= 0 {
        0
    } else {
        hits_outside(hits, axis, turn, n - 1)
            + if opens_group(hits, n - 1) && !in_domain(hits, n - 1, axis, turn) { 1nat } else { 0nat }
    }
}

/// One `turn` occurrence per record group opening among the first `n` hits.
pub open spec fn hits_turns(hits: Seq<Hit>, turn: Option<(Seq<char>, usize)>, n: int) -> Seq<(Seq<char>, usize)>
    decreases n,
{
    if n <= 0 {
        seq![]
    } else {
        let p = hits_turns(hits, turn, n - 1);
        match turn {
            Some(t) => if opens_group(hits, n - 1) { p.push(t) } else { p },
            None => p,
        }
    }
}

pub open spec fn turn_of(ex: Exchange) -> Option<(Seq<char>, usize)> {
    match ex.turn_index {
        Some(t) => Some((ex.session_id@, t)),
        None => None,
    }
}

/// The census keys of the first `e` exchanges, record group by record group.
pub open spec fn exs_keys(exs: Seq<Exchange>, axis: CountAxis, f: LabelFilter, e: int) -> Seq<Seq<char>>
    decreases e,
{
    if e <= 0 {
        seq![]
    } else {
        exs_keys(exs, axis, f, e - 1) + hits_keys(exs[e - 1].hits@, exs[e - 1].session_id@, axis, f,
            exs[e - 1].hits@.len() as int)
    }
}

/// The `(transcript, turn)` of every record group of the first `e` exchanges that has a turn.
pub open spec fn exs_turns(exs: Seq<Exchange>, e: int) -> Seq<(Seq<char>, usize)>
    decreases e,
{
    if e <= 0 {
        seq![]
    } else {
        exs_turns(exs, e - 1) + hits_turns(exs[e - 1].hits@, turn_of(exs[e - 1]), exs[e - 1].hits@.len() as int)
    }
}

/// The number of record groups of the first `e` exchanges.
pub open spec fn exs_groups(exs: Seq<Exchange>, e: int) -> nat
    decreases e,
{
    if e <= 0 {
        0
    } else {
        exs_groups(exs, e - 1) + hits_groups(exs[e - 1].hits@, exs[e - 1].hits@.len() as int)
    }
}

/// The number of record groups of the first `e` exchanges outside the axis.
pub open spec fn exs_outside(exs: Seq<Exchange>, axis: CountAxis, e: int) -> nat
    decreases e,
{
    if e <= 0 {
        0
    } else {
        exs_outside(exs, axis, e - 1) + hits_outside(exs[e - 1].hits@, axis, exs[e - 1].turn_index,
            exs[e - 1].hits@.len() as int)
    }
}


/// A size bound of a census over the first `n` hits: two per hit plus its labels.
pub open spec fn hits_size(hits: Seq<Hit>, n: int) -> nat
    decreases n,
{
    if n <= 0 {
        0
    } else {
        hits_size(hits, n - 1) + 2 + hits[n - 1].labels@.len()
    }
}

/// A size bound of a census over the first `e` exchanges.
pub open spec fn exs_size(exs: Seq<Exchange>, e: int) -> nat
    decreases e,
{
    if e <= 0 {
        0
    } else {
        exs_size(exs, e - 1) + hits_size(exs[e - 1].hits@, exs[e - 1].hits@.len() as int)
    }
}

proof fn lemma_hits_size_mono(hits: Seq<Hit>, a: int, b: int)
    requires
        0 <= a <= b,
    ensures
        hits_size(hits, a) <= hits_size(hits, b),
    decreases b - a,
{
    if a < b {
        lemma_hits_size_mono(hits, a, b - 1);
    }
}

proof fn lemma_exs_size_mono(exs: Seq<Exchange>, a: int, b: int)
    requires
        0 <= a <= b,
    ensures
        exs_size(exs, a) <= exs_size(exs, b),
    decreases b - a,
{
    if a < b {
        lemma_exs_size_mono(exs, a, b - 1);
    }
}

proof fn lemma_selected_paths_len(ls: Seq<Class>, f: LabelFilter, n: int)
    requires
        n >= 0,
    ensures
        selected_paths(ls, f, n).len() <= n,
    decreases n,
{
    if n > 0 {
        lemma_selected_paths_len(ls, f, n - 1);
    }
}

/// Transcript order, then turn order.
pub open spec fn turn_before(a: ((Seq<char>, usize), usize), b: ((Seq<char>, usize), usize)) -> bool {
    lex_lt(a.0.0, b.0.0) || (a.0.0 == b.0.0 && a.0.1 < b.0.1)
}

/// The turn entries in `(transcript, turn)` order.
fn sort_turns(e: &Vec<(String, usize, usize)>) -> (out: Vec<(String, usize, usize)>)
    ensures
        turn_views(out@) == isort(turn_views(e@), |a: ((Seq<char>, usize), usize), b: ((Seq<char>, usize), usize)| turn_before(a, b)),
{
    let ghost lt = |a: ((Seq<char>, usize), usize), b: ((Seq<char>, usize), usize)| turn_before(a, b);
    let ghost input = turn_views(e@);
    let mut out: Vec<(String, usize, usize)> = Vec::new();
    let mut i: usize = 0;
    while i < e.len()
        invariant
            i <= e@.len(),
            input == turn_views(e@),
            lt == |a: ((Seq<char>, usize), usize), b: ((Seq<char>, usize), usize)| turn_before(a, b),
            turn_views(out@) == isort(input.take(i as int), lt),
        decreases e.len() - i,
    {
        let sid = e[i].0.clone();
        let t = e[i].1;
        let n = e[i].2;
        let ghost x = ((sid@, t), n);
        assert(x == input[i as int]);
        let mut p: usize = 0;
        while p < out.len() && !((str_le(sid.as_str(), out[p].0.as_str()) && !str_eq(sid.as_str(), out[p].0.as_str()))
            || (str_eq(sid.as_str(), out[p].0.as_str()) && t < out[p].1))
            invariant
                p <= out@.len(),
                x == ((sid@, t), n),
                lt == |a: ((Seq<char>, usize), usize), b: ((Seq<char>, usize), usize)| turn_before(a, b),
                forall|q: int| 0 <= q < p ==> !lt(x, #[trigger] turn_views(out@)[q]),
            decreases out.len() - p,
        {
            assert(turn_views(out@)[p as int] == ((out@[p as int].0@, out@[p as int].1), out@[p as int].2));
            p = p + 1;
        }
        proof {
            if p < out@.len() {
                assert(turn_views(out@)[p as int] == ((out@[p as int].0@, out@[p as int].1), out@[p as int].2));
            }
            lemma_ins_at(turn_views(out@), x, lt, p as int);
            assert(input.take(i + 1).drop_last() =~= input.take(i as int));
        }
        let ghost before = out@;
        out.insert(p, (sid, t, n));
        proof {
            assert(turn_views(out@) =~= turn_views(before).take(p as int).push(x) + turn_views(before).skip(p as int));
        }
        i = i + 1;
    }
    assert(input.take(e@.len() as int) =~= input);
    out
}

/// A turn row's key: `t<turn>`, prefixed with the transcript id and `·` when several
/// transcripts are in scope.
pub open spec fn turn_key(multi: bool, p: (Seq<char>, usize)) -> Seq<char> {
    if multi { p.0 + "\u{b7}t"@ + decimal(p.1 as nat) } else { "t"@ + decimal(p.1 as nat) }
}

pub open spec fn turn_rows(multi: bool, e: Seq<((Seq<char>, usize), usize)>) -> Seq<(Seq<char>, usize)> {
    e.map_values(|x: ((Seq<char>, usize), usize)| (turn_key(multi, x.0), x.1))
}

fn format_turns(multi: bool, e: &Vec<(String, usize, usize)>) -> (out: Vec<(String, usize)>)
    ensures
        entry_views(out@) == turn_rows(multi, turn_views(e@)),
{
    let mut out: Vec<(String, usize)> = Vec::new();
    let mut i: usize = 0;
    while i < e.len()
        invariant
            i <= e@.len(),
            entry_views(out@) == turn_rows(multi, turn_views(e@)).take(i as int),
        decreases e.len() - i,
    {
        let mut key = String::new();
        if multi {
            key = e[i].0.clone();
            push_char(&mut key, '\u{b7}');
        }
        push_char(&mut key, 't');
        let ghost before = key@;
        push_decimal(&mut key, e[i].1 as u64);
        proof {
            reveal_strlit("\u{b7}t");
            reveal_strlit("t");
            assert(turn_views(e@)[i as int] == ((e@[i as int].0@, e@[i as int].1), e@[i as int].2));
            assert(key@ =~= turn_key(multi, (e@[i as int].0@, e@[i as int].1)));
        }
        let ghost prev = out@;
        out.push((key, e[i].2));
        assert(entry_views(out@) =~= entry_views(prev).push(turn_rows(multi, turn_views(e@))[i as int]));
        assert(turn_rows(multi, turn_views(e@)).take(i + 1) =~= turn_rows(multi, turn_views(e@)).take(i as int).push(turn_rows(multi, turn_views(e@))[i as int]));
        i = i + 1;
    }
    assert(turn_rows(multi, turn_views(e@)).take(e@.len() as int) =~= turn_rows(multi, turn_views(e@)));
    out
}


fn first_tool(hits: &Vec<Hit>, s: usize) -> (r: Option<String>)
    requires
        s < hits@.len(),
    ensures
        opt_view(r) == group_tool(hits@, s as int),
{
    let mut k: usize = s;
    loop
        invariant
            s <= k < hits@.len(),
            group_tool(hits@, s as int) == group_tool(hits@, k as int),
        decreases hits@.len() - k,
    {
        if hits[k].tool_name.is_some() {
            return match &hits[k].tool_name {
                Some(t) => Some(t.clone()),
                None => None,
            };
        }
        if k < hits.len() - 1 && !(hits[k].line == 0 || hits[k + 1].line != hits[k].line) {
            k = k + 1;
        } else {
            return None;
        }
    }
}

fn first_pair(hits: &Vec<Hit>, s: usize) -> (r: Option<Pairing>)
    requires
        s < hits@.len(),
    ensures
        r == group_pair(hits@, s as int),
{
    let mut k: usize = s;
    loop
        invariant
            s <= k < hits@.len(),
            group_pair(hits@, s as int) == group_pair(hits@, k as int),
        decreases hits@.len() - k,
    {
        if hits[k].pair.is_some() {
            return hits[k].pair;
        }
        if k < hits.len() - 1 && !(hits[k].line == 0 || hits[k + 1].line != hits[k].line) {
            k = k + 1;
        } else {
            return None;
        }
    }
}

fn first_model(hits: &Vec<Hit>, s: usize) -> (r: Option<String>)
    requires
        s < hits@.len(),
    ensures
        opt_view(r) == group_model(hits@, s as int),
{
    let mut k: usize = s;
    loop
        invariant
            s <= k < hits@.len(),
            group_model(hits@, s as int) == group_model(hits@, k as int),
        decreases hits@.len() - k,
    {
        if hits[k].model.is_some() {
            return match &hits[k].model {
                Some(m) => Some(m.clone()),
                None => None,
            };
        }
        if k < hits.len() - 1 && !(hits[k].line == 0 || hits[k + 1].line != hits[k].line) {
            k = k + 1;
        } else {
            return None;
        }
    }
}

fn pairing_word_exec(p: Pairing) -> (w: String)
    ensures
        w@ == pairing_word(p),
{
    match p {
        Pairing::Paired => "paired".to_string(),
        Pairing::PendingNoResult => "pending".to_string(),
        Pairing::OrphanResult => "orphan".to_string(),
    }
}

/// The per-axis record census of matched exchanges (`--count-by`): the rows in print
/// order, the number of matched records and the number outside the axis.
///
/// Each record group counts once — under every selected leaf of its label set (`label`),
/// under the first tool / pairing / model its hits carry (records with none are outside
/// the axis), under its transcript (`session`), or under its `(transcript, turn)` (`turn`;
/// records with no turn are outside). Rows are count-descending then key order, except
/// `turn`, which reads as a histogram in `(transcript, turn)` order with keys `t<turn>`,
/// prefixed `<transcript>·` when several transcripts are in scope.
#[verifier::loop_isolation(false)]
#[verifier::rlimit(60)]
pub fn axis_census(exchanges: &Vec<Exchange>, axis: CountAxis, filter: &LabelFilter) -> (r: (Vec<(String, usize)>, usize, usize))
    requires
        exs_size(exchanges@, exchanges@.len() as int) <= usize::MAX,
    ensures
        r.1 == exs_groups(exchanges@, exchanges@.len() as int),
        r.2 == exs_outside(exchanges@, axis, exchanges@.len() as int),
        axis != CountAxis::Turn ==> entry_views(r.0@) == isort(tally(exs_keys(exchanges@, axis, *filter,
            exchanges@.len() as int)), |a: (Seq<char>, usize), b: (Seq<char>, usize)| count_first(a, b)),
        axis == CountAxis::Turn ==> entry_views(r.0@) == turn_rows(distinct_ids(exchanges@).len() > 1,
            isort(tally(exs_turns(exchanges@, exchanges@.len() as int)),
            |a: ((Seq<char>, usize), usize), b: ((Seq<char>, usize), usize)| turn_before(a, b))),
{
    let multi = distinct_session_count(exchanges) > 1;
    let ghost exs = exchanges@;
    let ghost total = exs_size(exs, exs.len() as int);
    let mut counts: Vec<(String, usize)> = Vec::new();
    let mut turns: Vec<(String, usize, usize)> = Vec::new();
    let mut records: usize = 0;
    let mut excluded: usize = 0;
    let ghost mut ks: Seq<Seq<char>> = seq![];
    let ghost mut ts: Seq<(Seq<char>, usize)> = seq![];
    assert(entry_views(counts@) =~= tally(ks));
    assert(turn_views(turns@) =~= tally(ts));
    let mut e: usize = 0;
    while e < exchanges.len()
        invariant
            e <= exs.len(),
            ks == exs_keys(exs, axis, *filter, e as int),
            axis == CountAxis::Turn ==> ts == exs_turns(exs, e as int),
            axis != CountAxis::Turn ==> ts.len() == 0,
            records == exs_groups(exs, e as int),
            excluded == exs_outside(exs, axis, e as int),
            entry_views(counts@) == tally(ks),
            turn_views(turns@) == tally(ts),
            ks.len() + ts.len() + records <= exs_size(exs, e as int),
            excluded <= records,
        decreases exs.len() - e,
    {
        let ex = &exchanges[e];
        let hits = &ex.hits;
        let ghost hs = hits@;
        let ghost sid = ex.session_id@;
        let ghost base_ks = ks;
        let ghost base_ts = ts;
        let ghost base_rec = records as nat;
        let ghost base_exc = excluded as nat;
        proof {
            lemma_exs_size_mono(exs, e + 1, exs.len() as int);
        }
        let mut k: usize = 0;
        while k < hits.len()
            invariant
                k <= hs.len(),
                ks == base_ks + hits_keys(hs, sid, axis, *filter, k as int),
                axis == CountAxis::Turn ==> ts == base_ts + hits_turns(hs, turn_of(*ex), k as int),
                axis != CountAxis::Turn ==> ts.len() == 0,
                records == base_rec + hits_groups(hs, k as int),
                excluded == base_exc + hits_outside(hs, axis, ex.turn_index, k as int),
                entry_views(counts@) == tally(ks),
                turn_views(turns@) == tally(ts),
                ks.len() + ts.len() + records <= exs_size(exs, e as int) + hits_size(hs, k as int),
                excluded <= records,
            decreases hs.len() - k,
        {
            let opens = k == 0 || hits[k - 1].line == 0 || hits[k].line != hits[k - 1].line;
            assert(opens == opens_group(hs, k as int));
            proof {
                lemma_hits_size_mono(hs, k + 1, hs.len() as int);
            }
            if opens {
                records = records + 1;
                match axis {
                    CountAxis::Label => {
                        let labels = &hits[k].labels;
                        let ghost before = ks;
                        let mut j: usize = 0;
                        while j < labels.len()
                            invariant
                                j <= labels@.len(),
                                ks == before + selected_paths(labels@, *filter, j as int),
                                entry_views(counts@) == tally(ks),
                            decreases labels@.len() - j,
                        {
                            proof {
                                lemma_selected_paths_len(labels@, *filter, j as int);
                            }
                            let path = labels[j].path();
                            if filter.selected(path) {
                                tally_add(&mut counts, path.to_string(), Ghost(ks));
                                proof {
                                    ks = ks.push(path@);
                                    assert(ks =~= before + selected_paths(labels@, *filter, j + 1));
                                }
                            } else {
                                assert(selected_paths(labels@, *filter, j + 1) == selected_paths(labels@, *filter, j as int));
                            }
                            j = j + 1;
                        }
                        proof {
                            lemma_selected_paths_len(labels@, *filter, labels@.len() as int);
                        }
                    },
                    CountAxis::Tool => match first_tool(hits, k) {
                        Some(t) => {
                            let ghost tv = t@;
                            tally_add(&mut counts, t, Ghost(ks));
                            proof {
                                ks = ks.push(tv);
                            }
                        },
                        None => {
                            excluded = excluded + 1;
                        },
                    },
                    CountAxis::Turn => match ex.turn_index {
                        Some(t) => {
                            turn_add(&mut turns, ex.session_id.clone(), t, Ghost(ts));
                            proof {
                                ts = ts.push((sid, t));
                            }
                        },
                        None => {
                            excluded = excluded + 1;
                        },
                    },
                    CountAxis::Session => {
                        tally_add(&mut counts, ex.session_id.clone(), Ghost(ks));
                        proof {
                            ks = ks.push(sid);
                        }
                    },
                    CountAxis::Pairing => match first_pair(hits, k) {
                        Some(p) => {
                            let w = pairing_word_exec(p);
                            let ghost wv = w@;
                            tally_add(&mut counts, w, Ghost(ks));
                            proof {
                                ks = ks.push(wv);
                            }
                        },
                        None => {
                            excluded = excluded + 1;
                        },
                    },
                    CountAxis::Model => match first_model(hits, k) {
                        Some(m) => {
                            let ghost mv = m@;
                            tally_add(&mut counts, m, Ghost(ks));
                            proof {
                                ks = ks.push(mv);
                            }
                        },
                        None => {
                            excluded = excluded + 1;
                        },
                    },
                }
            }
            proof {
                assert(ks =~= base_ks + hits_keys(hs, sid, axis, *filter, k + 1));
                if axis == CountAxis::Turn {
                    assert(ts =~= base_ts + hits_turns(hs, turn_of(*ex), k + 1));
                }
            }
            k = k + 1;
        }
        proof {
            assert(ks =~= exs_keys(exs, axis, *filter, e + 1));
            if axis == CountAxis::Turn {
                assert(ts =~= exs_turns(exs, e + 1));
            }
        }
        e = e + 1;
    }
    if axis == CountAxis::Turn {
        let sorted = sort_turns(&turns);
        (format_turns(multi, &sorted), records, excluded)
    } else {
        (by_count(&counts), records, excluded)
    }
}


proof fn lemma_occ_push<T>(s: Seq<T>, x: T)
    ensures
        forall|q: T| #[trigger] occ(s.push(x), q) == occ(s, q) + if q == x { 1nat } else { 0nat },
{
    assert(s.push(x).drop_last() =~= s);
}

/// The per-leaf record census (the label axis in leaf order): each record group counts
/// under every leaf of its label set that the filter selects. Returns the leaves in text
/// order with their counts, and the number of records.
#[verifier::loop_isolation(false)]
#[verifier::rlimit(40)]
pub fn label_census(exchanges: &Vec<Exchange>, filter: &LabelFilter) -> (r: (Vec<(String, usize)>, usize))
    requires
        exs_size(exchanges@, exchanges@.len() as int) <= usize::MAX,
    ensures
        key_sorted(r.0@),
        forall|q: Seq<char>| #[trigger] has_key(r.0@, q)
            <==> occ(exs_keys(exchanges@, CountAxis::Label, *filter, exchanges@.len() as int), q) > 0,
        forall|q: Seq<char>| #[trigger] count_of(r.0@, q)
            == occ(exs_keys(exchanges@, CountAxis::Label, *filter, exchanges@.len() as int), q),
        r.1 == exs_groups(exchanges@, exchanges@.len() as int),
{
    let ghost exs = exchanges@;
    let ghost axis = CountAxis::Label;
    let mut table: Vec<(String, usize)> = Vec::new();
    let mut records: usize = 0;
    let ghost mut ks: Seq<Seq<char>> = seq![];
    let mut e: usize = 0;
    while e < exchanges.len()
        invariant
            e <= exs.len(),
            ks == exs_keys(exs, axis, *filter, e as int),
            records == exs_groups(exs, e as int),
            key_sorted(table@),
            forall|q: Seq<char>| #[trigger] has_key(table@, q) <==> occ(ks, q) > 0,
            forall|q: Seq<char>| #[trigger] count_of(table@, q) == occ(ks, q),
            ks.len() + records <= exs_size(exs, e as int),
        decreases exs.len() - e,
    {
        let ex = &exchanges[e];
        let hits = &ex.hits;
        let ghost hs = hits@;
        let ghost sid = ex.session_id@;
        let ghost base_ks = ks;
        let ghost base_rec = records as nat;
        proof {
            lemma_exs_size_mono(exs, e + 1, exs.len() as int);
        }
        let mut k: usize = 0;
        while k < hits.len()
            invariant
                k <= hs.len(),
                ks == base_ks + hits_keys(hs, sid, axis, *filter, k as int),
                records == base_rec + hits_groups(hs, k as int),
                key_sorted(table@),
                forall|q: Seq<char>| #[trigger] has_key(table@, q) <==> occ(ks, q) > 0,
                forall|q: Seq<char>| #[trigger] count_of(table@, q) == occ(ks, q),
                ks.len() + records <= exs_size(exs, e as int) + hits_size(hs, k as int),
            decreases hs.len() - k,
        {
            let opens = k == 0 || hits[k - 1].line == 0 || hits[k].line != hits[k - 1].line;
            assert(opens == opens_group(hs, k as int));
            proof {
                lemma_hits_size_mono(hs, k + 1, hs.len() as int);
            }
            if opens {
                records = records + 1;
                let labels = &hits[k].labels;
                let ghost before = ks;
                let mut j: usize = 0;
                while j < labels.len()
                    invariant
                        j <= labels@.len(),
                        ks == before + selected_paths(labels@, *filter, j as int),
                        key_sorted(table@),
                        forall|q: Seq<char>| #[trigger] has_key(table@, q) <==> occ(ks, q) > 0,
                        forall|q: Seq<char>| #[trigger] count_of(table@, q) == occ(ks, q),
                    decreases labels@.len() - j,
                {
                    proof {
                        lemma_selected_paths_len(labels@, *filter, j as int);
                    }
                    let path = labels[j].path();
                    if filter.selected(path) {
                        proof {
                            lemma_occ_le_len(ks, path@);
                            lemma_occ_push(ks, path@);
                        }
                        bump(&mut table, path, 1);
                        proof {
                            ks = ks.push(path@);
                            assert(ks =~= before + selected_paths(labels@, *filter, j + 1));
                        }
                    } else {
                        assert(selected_paths(labels@, *filter, j + 1) == selected_paths(labels@, *filter, j as int));
                    }
                    j = j + 1;
                }
                proof {
                    lemma_selected_paths_len(labels@, *filter, labels@.len() as int);
                }
            }
            proof {
                assert(ks =~= base_ks + hits_keys(hs, sid, axis, *filter, k + 1));
            }
            k = k + 1;
        }
        proof {
            assert(ks =~= exs_keys(exs, axis, *filter, e + 1));
        }
        e = e + 1;
    }
    (table, records)
}


proof fn lemma_occ_present<T>(s: Seq<T>, x: T)
    requires
        s.contains(x),
    ensures
        occ(s, x) > 0,
    decreases s.len(),
{
    if s.last() != x {
        let i = choose|i: int| 0 <= i < s.len() && s[i] == x;
        assert(s.drop_last()[i] == x);
        lemma_occ_present(s.drop_last(), x);
    }
}

/// The by-count rows of a census hold one row per distinct key, each carrying exactly
/// how many times its key occurs; so a `label` row carries the label census's count for
/// its leaf.
pub proof fn lemma_count_rows_are_tallies(ks: Seq<Seq<char>>)
    requires
        ks.len() <= usize::MAX,
    ensures
        ({
            let rows = isort(tally(ks), |a: (Seq<char>, usize), b: (Seq<char>, usize)| count_first(a, b));
            &&& rows.len() == dedup(ks).len()
            &&& forall|i: int| 0 <= i < rows.len() ==> (#[trigger] rows[i]).1 == occ(ks, rows[i].0)
                && occ(ks, rows[i].0) > 0
        }),
{
    let lt = |a: (Seq<char>, usize), b: (Seq<char>, usize)| count_first(a, b);
    let rows = isort(tally(ks), lt);
    lemma_isort_len(tally(ks), lt);
    lemma_isort_multiset(tally(ks), lt);
    assert forall|i: int| 0 <= i < rows.len() implies (#[trigger] rows[i]).1 == occ(ks, rows[i].0)
        && occ(ks, rows[i].0) > 0 by {
        let r = rows[i];
        assert(rows.to_multiset().count(r) > 0) by {
            assert(rows.contains(r));
            rows.to_multiset_ensures();
        }
        tally(ks).to_multiset_ensures();
        assert(tally(ks).contains(r));
        let j = choose|j: int| 0 <= j < tally(ks).len() && tally(ks)[j] == r;
        let k = dedup(ks)[j];
        assert(dedup(ks).contains(k));
        lemma_dedup_contains(ks, k);
        lemma_occ_present(ks, k);
        lemma_occ_le_len(ks, k);
    }
}

/// The counts of census rows, summed.
pub open spec fn row_total(rows: Seq<(Seq<char>, usize)>) -> nat
    decreases rows.len(),
{
    if rows.len() == 0 { 0 } else { row_total(rows.drop_last()) + rows.last().1 as nat }
}

proof fn lemma_row_total_cons(x: (Seq<char>, usize), s: Seq<(Seq<char>, usize)>)
    ensures
        row_total(seq![x] + s) == x.1 + row_total(s),
    decreases s.len(),
{
    if s.len() == 0 {
        assert(seq![x] + s =~= seq![x]);
        assert(seq![x].drop_last() =~= Seq::<(Seq<char>, usize)>::empty());
        assert(seq![x].last() == x);
        assert(row_total(Seq::<(Seq<char>, usize)>::empty()) == 0);
    } else {
        lemma_row_total_cons(x, s.drop_last());
        assert((seq![x] + s).drop_last() =~= seq![x] + s.drop_last());
        assert((seq![x] + s).last() == s.last());
    }
}

proof fn lemma_row_total_ins(s: Seq<(Seq<char>, usize)>, x: (Seq<char>, usize), lt: spec_fn((Seq<char>, usize), (Seq<char>, usize)) -> bool)
    ensures
        row_total(ins(s, x, lt)) == row_total(s) + x.1,
    decreases s.len(),
{
    if s.len() == 0 {
        assert(seq![x].drop_last() =~= Seq::<(Seq<char>, usize)>::empty());
        assert(seq![x].last() == x);
        assert(row_total(Seq::<(Seq<char>, usize)>::empty()) == 0);
    } else if lt(x, s[0]) {
        lemma_row_total_cons(x, s);
    } else {
        lemma_row_total_ins(s.drop_first(), x, lt);
        lemma_row_total_cons(s[0], ins(s.drop_first(), x, lt));
        lemma_row_total_cons(s[0], s.drop_first());
        assert(seq![s[0]] + s.drop_first() =~= s);
    }
}

proof fn lemma_row_total_isort(s: Seq<(Seq<char>, usize)>, lt: spec_fn((Seq<char>, usize), (Seq<char>, usize)) -> bool)
    ensures
        row_total(isort(s, lt)) == row_total(s),
    decreases s.len(),
{
    if s.len() > 0 {
        lemma_row_total_isort(s.drop_last(), lt);
        lemma_row_total_ins(isort(s.drop_last(), lt), s.last(), lt);
    }
}

/// The occurrences in `ks` of the keys of `d`, summed.
pub open spec fn occ_total(d: Seq<Seq<char>>, ks: Seq<Seq<char>>) -> nat
    decreases d.len(),
{
    if d.len() == 0 { 0 } else { occ_total(d.drop_last(), ks) + occ(ks, d.last()) }
}

proof fn lemma_occ_total_push(d: Seq<Seq<char>>, ks: Seq<Seq<char>>, x: Seq<char>)
    ensures
        occ_total(d, ks.push(x)) == occ_total(d, ks) + occ(d, x),
    decreases d.len(),
{
    lemma_occ_push(ks, x);
    if d.len() > 0 {
        lemma_occ_total_push(d.drop_last(), ks, x);
    }
}

proof fn lemma_dedup_occ(s: Seq<Seq<char>>, x: Seq<char>)
    ensures
        occ(dedup(s), x) == (if s.contains(x) { 1nat } else { 0nat }),
    decreases s.len(),
{
    if s.len() == 0 {
    } else {
        let l = s.last();
        lemma_dedup_occ(s.drop_last(), x);
        lemma_dedup_contains(s.drop_last(), l);
        lemma_dedup_contains(s.drop_last(), x);
        let d = dedup(s.drop_last());
        assert(s.contains(x) <==> (s.drop_last().contains(x) || x == l)) by {
            if s.contains(x) {
                let i = choose|i: int| 0 <= i < s.len() && s[i] == x;
                if i < s.len() - 1 {
                    assert(s.drop_last()[i] == x);
                }
            }
            if s.drop_last().contains(x) {
                let i = choose|i: int| 0 <= i < s.drop_last().len() && s.drop_last()[i] == x;
                assert(s[i] == x);
            }
            assert(s[s.len() - 1] == l);
        }
        if !d.contains(l) {
            assert(d.push(l).drop_last() =~= d);
        }
    }
}

proof fn lemma_occ_total_dedup(ks: Seq<Seq<char>>)
    ensures
        occ_total(dedup(ks), ks) == ks.len(),
    decreases ks.len(),
{
    if ks.len() > 0 {
        let p = ks.drop_last();
        let x = ks.last();
        assert(p.push(x) =~= ks);
        lemma_occ_total_dedup(p);
        let d = dedup(p);
        lemma_occ_total_push(d, p, x);
        lemma_dedup_occ(p, x);
        lemma_dedup_contains(p, x);
        if !d.contains(x) {
            assert(dedup(ks) == d.push(x));
            assert(d.push(x).drop_last() =~= d);
            lemma_occ_absent(p, x);
            lemma_occ_push(p, x);
        }
    }
}

proof fn lemma_row_total_tally(d: Seq<Seq<char>>, ks: Seq<Seq<char>>)
    requires
        ks.len() <= usize::MAX,
    ensures
        row_total(d.map_values(|k: Seq<char>| (k, occ(ks, k) as usize))) == occ_total(d, ks),
    decreases d.len(),
{
    if d.len() > 0 {
        lemma_row_total_tally(d.drop_last(), ks);
        lemma_occ_le_len(ks, d.last());
        assert(d.map_values(|k: Seq<char>| (k, occ(ks, k) as usize)).drop_last()
            =~= d.drop_last().map_values(|k: Seq<char>| (k, occ(ks, k) as usize)));
    }
}

/// One key per record group in the domain of a single-key axis, none outside it.
proof fn lemma_hits_single_key(hits: Seq<Hit>, sid: Seq<char>, axis: CountAxis, f: LabelFilter, turn: Option<usize>, n: int)
    requires
        axis == CountAxis::Tool || axis == CountAxis::Session || axis == CountAxis::Pairing || axis == CountAxis::Model,
    ensures
        hits_keys(hits, sid, axis, f, n).len() + hits_outside(hits, axis, turn, n) == hits_groups(hits, n),
    decreases n,
{
    if n > 0 {
        lemma_hits_single_key(hits, sid, axis, f, turn, n - 1);
    }
}

proof fn lemma_exs_single_key(exs: Seq<Exchange>, axis: CountAxis, f: LabelFilter, e: int)
    requires
        axis == CountAxis::Tool || axis == CountAxis::Session || axis == CountAxis::Pairing || axis == CountAxis::Model,
    ensures
        exs_keys(exs, axis, f, e).len() + exs_outside(exs, axis, e) == exs_groups(exs, e),
    decreases e,
{
    if e > 0 {
        lemma_exs_single_key(exs, axis, f, e - 1);
        lemma_hits_single_key(exs[e - 1].hits@, exs[e - 1].session_id@, axis, f, exs[e - 1].turn_index,
            exs[e - 1].hits@.len() as int);
    }
}

/// On a single-key axis (tool, session, pairing, model) every matched record is accounted
/// for exactly once: the counts of the census rows plus the records outside the axis add
/// up to the records matched.
pub proof fn lemma_census_accounts_for_every_record(exs: Seq<Exchange>, axis: CountAxis, f: LabelFilter)
    requires
        axis == CountAxis::Tool || axis == CountAxis::Session || axis == CountAxis::Pairing || axis == CountAxis::Model,
        exs_keys(exs, axis, f, exs.len() as int).len() <= usize::MAX,
    ensures
        row_total(isort(tally(exs_keys(exs, axis, f, exs.len() as int)),
            |a: (Seq<char>, usize), b: (Seq<char>, usize)| count_first(a, b)))
            + exs_outside(exs, axis, exs.len() as int) == exs_groups(exs, exs.len() as int),
{
    let ks = exs_keys(exs, axis, f, exs.len() as int);
    lemma_row_total_isort(tally(ks), |a: (Seq<char>, usize), b: (Seq<char>, usize)| count_first(a, b));
    lemma_row_total_tally(dedup(ks), ks);
    lemma_occ_total_dedup(ks);
    lemma_exs_single_key(exs, axis, f, exs.len() as int);
}

} // verus!
