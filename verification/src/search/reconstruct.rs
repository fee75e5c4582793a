//! Turn reconstruction and matching: records grouped into turns, each turn's hits
//! collected, and one exchange emitted per turn that matches and lies in the `--turn`
//! window.

use vstd::prelude::*;
use crate::labels::Class;
use crate::model::{Message, Record, opt_view};
use crate::range::{RangeSpec, endpoint_at};
use crate::search::census::{AddressSet, spec_addresses};
use crate::search::filter::LabelFilter;
use crate::search::hits::{EmissionView, RecordView, backfill_address, emit_hits, emission_views,
    hit_content, hit_matches, matching, record_emission_list, record_emissions, set_pairing, spec_pairing,
    string_views};
use crate::search::matcher::Matcher;
use crate::search::rows::Kept;
use crate::search::turns::{group_turns, spec_turns};
use crate::search::types::{EXCERPT_MAX, Exchange, Hit};
use crate::search::hits::{build_tool_name_index, tool_pair_ids, file_ids, file_tool_names, pair_views};
use crate::time_window::{TimeWindow, spec_contains};
use crate::subagent::{is_subagent_path, opt_view_s, parent_session_id_from_path, session_id_from_path,
    spec_is_subagent_path, spec_parent_session_id, spec_session_id};

verus! {

/// The model a record's message names.
pub open spec fn record_model(r: Record) -> Option<Seq<char>> {
    match r.message {
        Some(m) => opt_view(m.model),
        None => None,
    }
}

fn model_of(r: &Record) -> (m: Option<String>)
    ensures
        opt_view(m) == record_model(*r),
{
    match &r.message {
        Some(m) => match &m.model {
            Some(s) => Some(s.clone()),
            None => None,
        },
        None => None,
    }
}

/// Is record `k` eligible to hit: addressed (when an address is given), not ruled out
/// by the prefilter, and inside the time window?
pub open spec fn eligible(k: Kept, address: Option<AddressSet>, w: TimeWindow) -> bool {
    (match address {
        Some(a) => spec_addresses(a, k.line_no, opt_view(k.rec.uuid)),
        None => true,
    }) && k.can_hit && spec_contains(w, opt_view(k.rec.timestamp))
}

/// The matching emissions of the turn's records, each with the index of its record,
/// in order.
pub open spec fn turn_sources(idxs: Seq<int>, ks: Seq<Kept>, vs: Seq<RecordView>, f: LabelFilter, m: Matcher,
    names: Seq<(String, String)>, address: Option<AddressSet>, w: TimeWindow) -> Seq<(EmissionView, int)>
    decreases idxs.len(),
{
    if idxs.len() == 0 {
        Seq::empty()
    } else {
        let rest = turn_sources(idxs.drop_last(), ks, vs, f, m, names, address, w);
        let i = idxs.last();
        if eligible(ks[i], address, w) {
            rest + matching(record_emissions(ks[i].rec, vs[i], f, names), m).map_values(|e: EmissionView| (e, i))
        } else {
            rest
        }
    }
}

/// Hit `h` is the hit of source `src`: it matches the emission and carries the record's
/// address.
pub open spec fn hit_from(h: Hit, src: (EmissionView, int), ks: Seq<Kept>, vs: Seq<RecordView>, m: Matcher, max: nat) -> bool {
    let k = ks[src.1];
    &&& hit_content(h, src.0, m, max, vs[src.1].labels@, opt_view(k.rec.timestamp), record_model(k.rec))
    &&& h.line == k.line_no
    &&& h.uuid == k.rec.uuid
    &&& h.from_sidecar == k.from_sidecar
}

/// Gather the hits of one turn: for each eligible record, its emissions the matcher
/// locates, stamped with the record's address; plus the positions (in the turn) of the
/// records that produced at least one hit.
pub fn collect_turn_hits(idxs: &Vec<usize>, records: &[Kept], views: &Vec<RecordView>, filter: &LabelFilter,
    matcher: &Matcher, excerpt_max: usize, names: &Vec<(String, String)>, address: Option<&AddressSet>,
    window: &TimeWindow) -> (r: (Vec<Hit>, Vec<usize>))
    requires
        views@.len() == records@.len(),
        forall|q: int| 0 <= q < idxs@.len() ==> (#[trigger] idxs@[q]) < records@.len(),
    ensures
        ({
            let src = turn_sources(idxs@.map_values(|i: usize| i as int), records@, views@, *filter, *matcher,
                names@, match address { Some(a) => Some(*a), None => None }, *window);
            &&& r.0@.len() == src.len()
            &&& forall|k: int| 0 <= k < src.len() ==> hit_from(#[trigger] r.0@[k], src[k], records@, views@, *matcher, excerpt_max as nat)
        }),
        forall|q: int| 0 <= q < r.1@.len() ==> (#[trigger] r.1@[q]) < idxs@.len(),
{
    let ghost addr = match address { Some(a) => Some(*a), None => None };
    let ghost ii = idxs@.map_values(|i: usize| i as int);
    let mut hits: Vec<Hit> = Vec::new();
    let mut hit_idxs: Vec<usize> = Vec::new();
    let mut p: usize = 0;
    while p < idxs.len()
        invariant
            p <= idxs@.len(),
            views@.len() == records@.len(),
            forall|q: int| 0 <= q < idxs@.len() ==> (#[trigger] idxs@[q]) < records@.len(),
            ii == idxs@.map_values(|i: usize| i as int),
            addr == match address { Some(a) => Some(*a), None => None },
            hits@.len() == turn_sources(ii.take(p as int), records@, views@, *filter, *matcher, names@, addr, *window).len(),
            forall|k: int| 0 <= k < hits@.len() ==> hit_from(#[trigger] hits@[k],
                turn_sources(ii.take(p as int), records@, views@, *filter, *matcher, names@, addr, *window)[k],
                records@, views@, *matcher, excerpt_max as nat),
            forall|q: int| 0 <= q < hit_idxs@.len() ==> (#[trigger] hit_idxs@[q]) < p,
        decreases idxs.len() - p,
    {
        let i = idxs[p];
        assert(ii.take(p as int + 1).drop_last() =~= ii.take(p as int));
        assert(ii.take(p as int + 1).last() == i as int);
        let ghost prev_src = turn_sources(ii.take(p as int), records@, views@, *filter, *matcher, names@, addr, *window);
        let kept = &records[i];
        let addressed = match address {
            Some(a) => a.addresses(kept),
            None => true,
        };
        let ts_ref: Option<&str> = match &kept.rec.timestamp {
            Some(t) => Some(t.as_str()),
            None => None,
        };
        if addressed && kept.can_hit && window.contains(ts_ref) {
            let before = hits.len();
            let ghost base = hits@;
            let es = record_emission_list(&kept.rec, &views[i], filter, names);
            let ts = kept.rec.timestamp.clone();
            let model = model_of(&kept.rec);
            emit_hits(&es, matcher, excerpt_max, &views[i].labels, &ts, &model, &mut hits);
            let ghost mid = hits@;
            backfill_address(&mut hits, before, kept);
            proof {
                let ms = matching(record_emissions(kept.rec, views@[i as int], *filter, names@), *matcher);
                let new_src = prev_src + ms.map_values(|e: EmissionView| (e, i as int));
                assert(emission_views(es@) == record_emissions(kept.rec, views@[i as int], *filter, names@));
                assert forall|k: int| 0 <= k < hits@.len() implies hit_from(#[trigger] hits@[k], new_src[k],
                    records@, views@, *matcher, excerpt_max as nat) by {
                    if k < base.len() {
                        assert(hits@[k] == mid[k]);
                        assert(mid[k] == base[k]);
                    } else {
                        let q = k - base.len();
                        assert(hit_matches(mid[base.len() + q], ms[q], *matcher, excerpt_max as nat,
                            views@[i as int].labels@, opt_view(kept.rec.timestamp), record_model(kept.rec)));
                        assert(new_src[k] == (ms[q], i as int));
                    }
                }
            }
            if hits.len() > before {
                hit_idxs.push(p);
            }
        }
        p = p + 1;
    }
    assert(ii.take(idxs.len() as int) =~= ii);
    (hits, hit_idxs)
}

/// The uuids of the turn's records, in order (records without one are passed over).
pub open spec fn turn_uuids(idxs: Seq<int>, ks: Seq<Kept>) -> Seq<Seq<char>>
    decreases idxs.len(),
{
    if idxs.len() == 0 {
        Seq::empty()
    } else {
        let rest = turn_uuids(idxs.drop_last(), ks);
        match ks[idxs.last()].rec.uuid {
            Some(u) => rest.push(u@),
            None => rest,
        }
    }
}

/// The turn's physical line span over its located records: `(first, last)` as the
/// least and greatest positive line number, `(0, 0)` when none is located.
pub open spec fn turn_span(idxs: Seq<int>, ks: Seq<Kept>) -> (int, int)
    decreases idxs.len(),
{
    if idxs.len() == 0 {
        (0, 0)
    } else {
        let s = turn_span(idxs.drop_last(), ks);
        let l = ks[idxs.last()].line_no as int;
        if l == 0 {
            s
        } else if s == (0int, 0int) {
            (l, l)
        } else {
            (if l < s.0 { l } else { s.0 }, if l > s.1 { l } else { s.1 })
        }
    }
}

/// The first timestamp among `hits`, in order.
pub open spec fn first_hit_ts(hits: Seq<Hit>) -> Option<Seq<char>>
    decreases hits.len(),
{
    if hits.len() == 0 {
        None
    } else if hits[0].timestamp_utc is Some {
        opt_view(hits[0].timestamp_utc)
    } else {
        first_hit_ts(hits.drop_first())
    }
}

/// Where a transcript stands: its own id, whether it is a subagent's, and the owning
/// top-level session id.
pub struct SourceIds {
    pub session_id: String,
    pub is_subagent: bool,
    pub parent_session_id: String,
}

/// The ids a transcript path gives: a subagent transcript's owner is the session just
/// before `subagents`; a top-level transcript is its own owner.
pub fn source_ids(path: &str) -> (r: SourceIds)
    ensures
        r.session_id@ == spec_session_id(path@),
        r.is_subagent == spec_is_subagent_path(path@),
        r.parent_session_id@ == match spec_parent_session_id(path@) {
            Some(p) => p,
            None => spec_session_id(path@),
        },
{
    let session_id = session_id_from_path(path);
    let is_subagent = is_subagent_path(path);
    let parent_session_id = match parent_session_id_from_path(path) {
        Some(p) => p,
        None => session_id.clone(),
    };
    SourceIds { session_id, is_subagent, parent_session_id }
}

/// The plain-value view of a transcript's ids.
pub open spec fn ids_view(ids: SourceIds) -> (Seq<char>, bool, Seq<char>) {
    (ids.session_id@, ids.is_subagent, ids.parent_session_id@)
}

/// The ids a transcript path gives.
pub open spec fn path_ids(p: Seq<char>) -> (Seq<char>, bool, Seq<char>) {
    (spec_session_id(p), spec_is_subagent_path(p), match spec_parent_session_id(p) {
        Some(x) => x,
        None => spec_session_id(p),
    })
}

/// Everything a turn's exchange is built from besides the turn itself.
pub struct MatchEnv<'a> {
    pub records: &'a [Kept],
    pub views: &'a Vec<RecordView>,
    pub filter: &'a LabelFilter,
    pub matcher: &'a Matcher,
    pub excerpt_max: usize,
    pub names: &'a Vec<(String, String)>,
    pub address: Option<&'a AddressSet>,
    pub window: TimeWindow,
    pub use_ids: &'a Vec<String>,
    pub result_ids: &'a Vec<String>,
}

pub open spec fn env_address(env: MatchEnv<'_>) -> Option<AddressSet> {
    match env.address {
        Some(a) => Some(*a),
        None => None,
    }
}

/// The matching sources of a turn under an environment.
pub open spec fn env_sources(env: MatchEnv<'_>, idxs: Seq<int>) -> Seq<(EmissionView, int)> {
    turn_sources(idxs, env.records@, env.views@, *env.filter, *env.matcher, env.names@, env_address(env), env.window)
}

/// Is the turn inside the `--turn` window? A draft sits outside turn numbering, so the
/// window never applies to it.
pub open spec fn in_window(turn_index: int, draft: bool, bounds: Option<(usize, usize)>) -> bool {
    draft || match bounds {
        Some(b) => b.0 <= turn_index <= b.1,
        None => true,
    }
}

/// `ex` is the exchange of the turn `idxs`: its identity, turn index, every hit (the
/// turn's sources in order, with pairing resolved), uuids, line span and start time.
pub open spec fn exchange_of(ex: Exchange, ids: (Seq<char>, bool, Seq<char>), turn_index: int, draft: bool, idxs: Seq<int>, env: MatchEnv<'_>) -> bool {
    let src = env_sources(env, idxs);
    &&& ex.session_id@ == ids.0
    &&& ex.is_subagent == ids.1
    &&& ex.parent_session_id@ == ids.2
    &&& ex.turn_index == (if draft { None } else { Some(turn_index as usize) })
    &&& ex.superseded_draft == draft
    &&& ex.hits@.len() == src.len()
    &&& forall|k: int| 0 <= k < src.len() ==> {
        let h = #[trigger] ex.hits@[k];
        &&& hit_from(Hit { pair: None, ..h }, src[k], env.records@, env.views@, *env.matcher, env.excerpt_max as nat)
        &&& h.pair == spec_pairing(h.class, opt_view(h.tool_use_id), string_views(env.use_ids@), string_views(env.result_ids@))
    }
    &&& ex.record_uuids@.map_values(|s: String| s@) == turn_uuids(idxs, env.records@)
    &&& (ex.turn_lines.0 as int, ex.turn_lines.1 as int) == turn_span(idxs, env.records@)
    &&& opt_view(ex.started_utc) == (if idxs.len() > 0 && env.records@[idxs[0]].rec.timestamp is Some {
            opt_view(env.records@[idxs[0]].rec.timestamp)
        } else {
            first_hit_ts(ex.hits@)
        })
    &&& ex.siblings@.len() == 0
    &&& ex.siblings_hidden == 0
}

fn copy_ids(ids: &SourceIds) -> (r: SourceIds)
    ensures
        r.session_id@ == ids.session_id@,
        r.is_subagent == ids.is_subagent,
        r.parent_session_id@ == ids.parent_session_id@,
{
    SourceIds { session_id: ids.session_id.clone(), is_subagent: ids.is_subagent, parent_session_id: ids.parent_session_id.clone() }
}

fn first_ts(hits: &Vec<Hit>) -> (r: Option<String>)
    ensures
        opt_view(r) == first_hit_ts(hits@),
{
    let mut i: usize = 0;
    assert(hits@.skip(0) =~= hits@);
    while i < hits.len()
        invariant
            i <= hits.len(),
            first_hit_ts(hits@) == first_hit_ts(hits@.skip(i as int)),
        decreases hits.len() - i,
    {
        assert(hits@.skip(i as int).drop_first() =~= hits@.skip(i as int + 1));
        assert(hits@.skip(i as int)[0] == hits@[i as int]);
        if let Some(t) = &hits[i].timestamp_utc {
            return Some(t.clone());
        }
        i = i + 1;
    }
    assert(hits@.skip(hits.len() as int) =~= Seq::<Hit>::empty());
    None
}

/// Build one turn's exchange, or `None` when the turn lies outside the `--turn` window or
/// produced no hit.
pub fn build_exchange(ids: &SourceIds, turn_index: usize, idxs: &Vec<usize>, draft: bool,
    bounds: Option<(usize, usize)>, env: &MatchEnv<'_>) -> (r: Option<Exchange>)
    requires
        env.views@.len() == env.records@.len(),
        forall|q: int| 0 <= q < idxs@.len() ==> (#[trigger] idxs@[q]) < env.records@.len(),
    ensures
        r is None <==> (!in_window(turn_index as int, draft, bounds)
            || env_sources(*env, idxs@.map_values(|i: usize| i as int)).len() == 0),
        r matches Some(ex) ==> exchange_of(ex, ids_view(*ids), turn_index as int, draft, idxs@.map_values(|i: usize| i as int), *env),
{
    let ghost ii = idxs@.map_values(|i: usize| i as int);
    if !draft {
        if let Some((lo, hi)) = bounds {
            if turn_index < lo || turn_index > hi {
                return None;
            }
        }
    }
    let (mut hits, _hit_idxs) = collect_turn_hits(idxs, env.records, env.views, env.filter, env.matcher,
        env.excerpt_max, env.names, env.address, &env.window);
    if hits.len() == 0 {
        return None;
    }
    let ghost src = env_sources(*env, ii);
    let ghost unpaired = hits@;
    let mut k: usize = 0;
    while k < hits.len()
        invariant
            k <= hits@.len(),
            hits@.len() == unpaired.len(),
            forall|q: int| k <= q < hits@.len() ==> #[trigger] hits@[q] == unpaired[q],
            forall|q: int| 0 <= q < unpaired.len() ==> (#[trigger] unpaired[q]).pair is None,
            forall|q: int| 0 <= q < k ==> {
                let h = #[trigger] hits@[q];
                &&& Hit { pair: None, ..h } == unpaired[q]
                &&& h.pair == spec_pairing(h.class, opt_view(h.tool_use_id), string_views(env.use_ids@), string_views(env.result_ids@))
            },
        decreases hits.len() - k,
    {
        let mut h = hits.remove(k);
        set_pairing(&mut h, env.use_ids, env.result_ids);
        hits.insert(k, h);
        k = k + 1;
    }
    let mut uuids: Vec<String> = Vec::new();
    let mut lo_line: usize = 0;
    let mut hi_line: usize = 0;
    let mut p: usize = 0;
    while p < idxs.len()
        invariant
            p <= idxs@.len(),
            ii == idxs@.map_values(|i: usize| i as int),
            forall|q: int| 0 <= q < idxs@.len() ==> (#[trigger] idxs@[q]) < env.records@.len(),
            uuids@.map_values(|s: String| s@) == turn_uuids(ii.take(p as int), env.records@),
            (lo_line as int, hi_line as int) == turn_span(ii.take(p as int), env.records@),
        decreases idxs.len() - p,
    {
        assert(ii.take(p as int + 1).drop_last() =~= ii.take(p as int));
        let kept = &env.records[idxs[p]];
        let ghost before = uuids@.map_values(|s: String| s@);
        if let Some(u) = &kept.rec.uuid {
            uuids.push(u.clone());
            assert(uuids@.map_values(|s: String| s@) =~= before.push(u@));
        }
        let l = kept.line_no;
        if l != 0 {
            if lo_line == 0 && hi_line == 0 {
                lo_line = l;
                hi_line = l;
            } else {
                if l < lo_line {
                    lo_line = l;
                }
                if l > hi_line {
                    hi_line = l;
                }
            }
        }
        p = p + 1;
    }
    assert(ii.take(idxs.len() as int) =~= ii);
    let started_utc = if idxs.len() > 0 && env.records[idxs[0]].rec.timestamp.is_some() {
        env.records[idxs[0]].rec.timestamp.clone()
    } else {
        first_ts(&hits)
    };
    let c = copy_ids(ids);
    Some(Exchange {
        session_id: c.session_id,
        is_subagent: c.is_subagent,
        parent_session_id: c.parent_session_id,
        turn_index: if draft { None } else { Some(turn_index) },
        started_utc,
        hits,
        siblings: Vec::new(),
        siblings_hidden: 0,
        turn_lines: (lo_line, hi_line),
        record_uuids: uuids,
        superseded_draft: draft,
    })
}

/// How many records are skipped.
pub open spec fn skip_count(skip: Seq<bool>) -> nat
    decreases skip.len(),
{
    if skip.len() == 0 { 0 } else { skip_count(skip.drop_last()) + if skip.last() { 1nat } else { 0nat } }
}

/// The skipped record indices, ascending.
pub open spec fn skipped(skip: Seq<bool>) -> Seq<int>
    decreases skip.len(),
{
    if skip.len() == 0 { Seq::empty() } else if skip.last() { skipped(skip.drop_last()).push(skip.len() - 1) } else { skipped(skip.drop_last()) }
}

/// Does the turn yield an exchange?
pub open spec fn turn_yields(env: MatchEnv<'_>, turn_index: int, draft: bool, bounds: Option<(usize, usize)>, idxs: Seq<int>) -> bool {
    in_window(turn_index, draft, bounds) && env_sources(env, idxs).len() > 0
}

/// The turn numbers (among the first `n` turns) that yield an exchange, in order.
pub open spec fn yielding_turns(env: MatchEnv<'_>, turns: Seq<Seq<int>>, bounds: Option<(usize, usize)>, n: int) -> Seq<int>
    decreases n,
{
    if n <= 0 {
        Seq::empty()
    } else {
        let rest = yielding_turns(env, turns, bounds, n - 1);
        if turn_yields(env, n - 1, false, bounds, turns[n - 1]) { rest.push(n - 1) } else { rest }
    }
}

/// The skipped records (among the first `n` skipped ones) that an address reaches and that
/// yield an exchange, in order.
pub open spec fn yielding_drafts(env: MatchEnv<'_>, drafts: Seq<int>, n: int) -> Seq<int>
    decreases n,
{
    if n <= 0 {
        Seq::empty()
    } else {
        let rest = yielding_drafts(env, drafts, n - 1);
        if turn_yields(env, 0, true, None, seq![drafts[n - 1]]) { rest.push(drafts[n - 1]) } else { rest }
    }
}

/// The resolved `--turn` window over `total` turns.
pub open spec fn spec_bounds(spec: Option<RangeSpec>, total: nat) -> Option<(usize, usize)> {
    match spec {
        Some(sp) => Some((endpoint_at(sp.start, total, false, true) as usize, endpoint_at(sp.end, total, false, false) as usize)),
        None => None,
    }
}

proof fn lemma_skipped_len(skip: Seq<bool>)
    ensures
        skipped(skip).len() == skip_count(skip),
        forall|k: int| 0 <= k < skipped(skip).len() ==> 0 <= #[trigger] skipped(skip)[k] < skip.len(),
    decreases skip.len(),
{
    if skip.len() > 0 {
        lemma_skipped_len(skip.drop_last());
    }
}

proof fn lemma_skipped_prefix_of(skip: Seq<bool>, m: int)
    requires
        0 <= m <= skip.len(),
    ensures
        skipped(skip.take(m)) == skipped(skip).take(skipped(skip.take(m)).len() as int),
        skipped(skip.take(m)).len() <= skipped(skip).len(),
    decreases skip.len() - m,
{
    if m < skip.len() {
        lemma_skipped_prefix_of(skip, m + 1);
        assert(skip.take(m + 1).drop_last() =~= skip.take(m));
        lemma_skipped_len(skip.take(m + 1));
    } else {
        assert(skip.take(m) =~= skip);
    }
}

proof fn lemma_skipped_prefix(skip: Seq<bool>, i: int, n: int)
    requires
        0 <= i < skip.len(),
        skip[i],
        n == skip_count(skip.take(i)),
    ensures
        n < skipped(skip).len(),
        skipped(skip)[n] == i,
        skipped(skip.take(i + 1)) == skipped(skip).take(n + 1),
        skip_count(skip.take(i + 1)) == n + 1,
{
    assert(skip.take(i + 1).drop_last() =~= skip.take(i));
    lemma_skipped_len(skip.take(i));
    lemma_skipped_len(skip.take(i + 1));
    lemma_skipped_prefix_of(skip, i + 1);
    assert(skipped(skip.take(i + 1)).last() == i);
}

proof fn lemma_turn_indices_in_range(opens: Seq<bool>, skip: Seq<bool>)
    requires
        opens.len() == skip.len(),
    ensures
        forall|t: int, q: int| 0 <= t < spec_turns(opens, skip).len() && 0 <= q < spec_turns(opens, skip)[t].len()
            ==> 0 <= #[trigger] spec_turns(opens, skip)[t][q] < opens.len(),
{
    crate::search::turns::lemma_turns_partition(opens, skip);
    crate::search::turns::lemma_turn_members_in_range(opens, skip);
}

/// The yielding turns are increasing turn numbers below `n`, each of which yields.
proof fn lemma_yielding_turns_shape(env: MatchEnv<'_>, turns: Seq<Seq<int>>, bounds: Option<(usize, usize)>, n: int)
    ensures
        forall|k: int| 0 <= k < yielding_turns(env, turns, bounds, n).len() ==> {
            let t = #[trigger] yielding_turns(env, turns, bounds, n)[k];
            0 <= t < n && turn_yields(env, t, false, bounds, turns[t])
        },
        forall|a: int, b: int| 0 <= a < b < yielding_turns(env, turns, bounds, n).len()
            ==> yielding_turns(env, turns, bounds, n)[a] < yielding_turns(env, turns, bounds, n)[b],
    decreases n,
{
    if n > 0 {
        lemma_yielding_turns_shape(env, turns, bounds, n - 1);
        let rest = yielding_turns(env, turns, bounds, n - 1);
        let ys = yielding_turns(env, turns, bounds, n);
        if turn_yields(env, n - 1, false, bounds, turns[n - 1]) {
            assert(ys == rest.push(n - 1));
            assert forall|k: int| 0 <= k < ys.len() implies {
                let t = #[trigger] ys[k];
                0 <= t < n && turn_yields(env, t, false, bounds, turns[t])
            } by {
                if k < rest.len() {
                    assert(ys[k] == rest[k]);
                }
            }
            assert forall|a: int, b: int| 0 <= a < b < ys.len() implies ys[a] < ys[b] by {
                assert(ys[a] == rest[a]);
                if b < rest.len() {
                    assert(ys[b] == rest[b]);
                }
            }
        } else {
            assert(ys == rest);
        }
    }
}

/// Every yielding draft yields.
proof fn lemma_yielding_drafts_yield(env: MatchEnv<'_>, drafts: Seq<int>, n: int)
    ensures
        forall|k: int| 0 <= k < yielding_drafts(env, drafts, n).len()
            ==> turn_yields(env, 0, true, None, seq![#[trigger] yielding_drafts(env, drafts, n)[k]]),
    decreases n,
{
    if n > 0 {
        lemma_yielding_drafts_yield(env, drafts, n - 1);
        let rest = yielding_drafts(env, drafts, n - 1);
        let ds = yielding_drafts(env, drafts, n);
        if turn_yields(env, 0, true, None, seq![drafts[n - 1]]) {
            assert(ds == rest.push(drafts[n - 1]));
            assert forall|k: int| 0 <= k < ds.len() implies turn_yields(env, 0, true, None, seq![#[trigger] ds[k]]) by {
                if k < rest.len() {
                    assert(ds[k] == rest[k]);
                }
            }
        } else {
            assert(ds == rest);
        }
    }
}

/// Walk the retained records in file order, group them into turns, and emit one exchange
/// per turn that lies in the `--turn` window and matches; under an explicit address each
/// skipped (superseded) record the address reaches is emitted as its own draft unit after
/// them. Returns the exchanges, the turn count (the `--turn` domain) and how many records
/// were skipped.
pub fn reconstruct_and_match(path: &str, records: &[Kept], opens: &[bool], skip: &[bool], views: &Vec<RecordView>,
    filter: &LabelFilter, matcher: &Matcher, turn_range: Option<RangeSpec>, address: Option<&AddressSet>,
    window: &TimeWindow, no_truncate: bool) -> (r: (Vec<Exchange>, usize, usize))
    requires
        opens@.len() == records@.len(),
        skip@.len() == records@.len(),
        views@.len() == records@.len(),
    ensures
        r.1 == spec_turns(opens@, skip@).len(),
        r.2 == skip_count(skip@),
        exists|env: MatchEnv| #![trigger env.records] {
            let turns = spec_turns(opens@, skip@);
            let bounds = spec_bounds(turn_range, turns.len());
            let ys = yielding_turns(env, turns, bounds, turns.len() as int);
            let ds = if address is Some { yielding_drafts(env, skipped(skip@), skipped(skip@).len() as int) } else { Seq::empty() };
            &&& env.records@ == records@
            &&& env.views@ == views@
            &&& *env.filter == *filter
            &&& *env.matcher == *matcher
            &&& env.address == address
            &&& env.window == *window
            &&& env.excerpt_max == (if no_truncate || address is Some { usize::MAX } else { EXCERPT_MAX })
            &&& pair_views(env.names@) == file_tool_names(records@)
            &&& string_views(env.use_ids@) == file_ids(records@, true)
            &&& string_views(env.result_ids@) == file_ids(records@, false)
            &&& r.0@.len() == ys.len() + ds.len()
            &&& forall|j: int| 0 <= j < ys.len() ==> exchange_of(#[trigger] r.0@[j], path_ids(path@), ys[j], false, turns[ys[j]], env)
            &&& forall|j: int| 0 <= j < ds.len() ==> exchange_of(#[trigger] r.0@[ys.len() + j], path_ids(path@), 0, true, seq![ds[j]], env)
        },
        forall|j: int| 0 <= j < r.0@.len() ==> (#[trigger] r.0@[j]).hits@.len() > 0,
        forall|j: int| 0 <= j < r.0@.len() ==> ((#[trigger] r.0@[j]).superseded_draft <==> r.0@[j].turn_index is None),
        forall|j: int| 0 <= j < r.0@.len() && (#[trigger] r.0@[j]).superseded_draft ==> address is Some,
        forall|j: int| 0 <= j < r.0@.len() && (#[trigger] r.0@[j]).turn_index is Some ==> r.0@[j].turn_index->0 < r.1,
        forall|i: int, j: int| 0 <= i < j < r.0@.len() && (#[trigger] r.0@[j]).turn_index is Some
            ==> (#[trigger] r.0@[i]).turn_index is Some && r.0@[i].turn_index->0 < r.0@[j].turn_index->0,
{
    let ids = source_ids(path);
    let excerpt_max = if no_truncate || address.is_some() { usize::MAX } else { EXCERPT_MAX };
    let turns = group_turns(opens, skip);
    let ghost st = spec_turns(opens@, skip@);
    proof { lemma_turn_indices_in_range(opens@, skip@); }
    let bounds = match &turn_range {
        Some(spec) => Some(spec.resolve(turns.len(), false)),
        None => None,
    };
    let names = build_tool_name_index(records);
    let (use_ids, result_ids) = tool_pair_ids(records);
    let env = MatchEnv {
        records,
        views,
        filter,
        matcher,
        excerpt_max,
        names: &names,
        address,
        window: *window,
        use_ids: &use_ids,
        result_ids: &result_ids,
    };
    let mut out: Vec<Exchange> = Vec::new();
    let mut t: usize = 0;
    while t < turns.len()
        invariant
            t <= turns@.len(),
            turns@.len() == st.len(),
            forall|k: int| 0 <= k < turns@.len() ==> (#[trigger] turns@[k])@.map_values(|i: usize| i as int) == st[k],
            forall|a: int, q: int| 0 <= a < st.len() && 0 <= q < st[a].len() ==> 0 <= #[trigger] st[a][q] < records@.len(),
            views@.len() == records@.len(),
            env.records@ == records@,
            env.views@ == views@,
            out@.len() == yielding_turns(env, st, bounds, t as int).len(),
            forall|j: int| 0 <= j < out@.len() ==> exchange_of(#[trigger] out@[j], ids_view(ids), yielding_turns(env, st, bounds, t as int)[j], false,
                st[yielding_turns(env, st, bounds, t as int)[j]], env),
        decreases turns.len() - t,
    {
        let idxs = &turns[t];
        proof {
            assert forall|q: int| 0 <= q < idxs@.len() implies (#[trigger] idxs@[q]) < env.records@.len() by {
                assert(idxs@.map_values(|i: usize| i as int)[q] == st[t as int][q]);
            }
        }
        let ghost before = out@;
        match build_exchange(&ids, t, idxs, false, bounds, &env) {
            Some(ex) => {
                out.push(ex);
                assert forall|j: int| 0 <= j < out@.len() implies exchange_of(#[trigger] out@[j], ids_view(ids), yielding_turns(env, st, bounds, t + 1)[j], false,
                    st[yielding_turns(env, st, bounds, t + 1)[j]], env) by {
                    if j < before.len() {
                        assert(out@[j] == before[j]);
                    }
                }
            },
            None => {},
        }
        t = t + 1;
    }
    let ghost ys = yielding_turns(env, st, bounds, turns.len() as int);
    let ghost sk = skipped(skip@);
    let mut nskip: usize = 0;
    let mut i: usize = 0;
    let ghost mut ds: Seq<int> = Seq::empty();
    let ghost mut nd: int = 0;
    while i < skip.len()
        invariant
            i <= skip@.len(),
            skip@.len() == records@.len(),
            views@.len() == records@.len(),
            env.records@ == records@,
            env.views@ == views@,
            env.address == address,
            nskip == skip_count(skip@.take(i as int)),
            nskip <= i,
            forall|a: int, q: int| 0 <= a < st.len() && 0 <= q < st[a].len() ==> 0 <= #[trigger] st[a][q] < records@.len(),
            sk == skipped(skip@),
            skipped(skip@.take(i as int)) == sk.take(nskip as int),
            ds == (if address is Some { yielding_drafts(env, sk, nskip as int) } else { Seq::empty() }),
            nskip <= sk.len(),
            out@.len() == ys.len() + ds.len(),
            forall|j: int| 0 <= j < ys.len() ==> exchange_of(#[trigger] out@[j], ids_view(ids), ys[j], false, st[ys[j]], env),
            forall|j: int| 0 <= j < ds.len() ==> exchange_of(#[trigger] out@[ys.len() + j], ids_view(ids), 0, true, seq![ds[j]], env),
        decreases skip.len() - i,
    {
        assert(skip@.take(i as int + 1).drop_last() =~= skip@.take(i as int));
        proof { lemma_skipped_prefix_of(skip@, i as int + 1); lemma_skipped_len(skip@.take(i as int + 1)); }
        if skip[i] {
            proof { lemma_skipped_prefix(skip@, i as int, nskip as int); }
            if address.is_some() {
                let one = vec![i];
                assert(one@.map_values(|x: usize| x as int) =~= seq![i as int]);
                let ghost before = out@;
                match build_exchange(&ids, 0, &one, true, None, &env) {
                    Some(ex) => {
                        out.push(ex);
                        proof {
                            ds = ds.push(i as int);
                            assert forall|j: int| 0 <= j < ys.len() implies exchange_of(#[trigger] out@[j], ids_view(ids), ys[j], false, st[ys[j]], env) by {
                                assert(out@[j] == before[j]);
                            }
                            assert forall|j: int| 0 <= j < ds.len() implies exchange_of(#[trigger] out@[ys.len() + j], ids_view(ids), 0, true, seq![ds[j]], env) by {
                                if j < ds.len() - 1 {
                                    assert(out@[ys.len() + j] == before[ys.len() + j]);
                                }
                            }
                        }
                    },
                    None => {
                        assert(yielding_drafts(env, sk, nskip + 1) == ds);
                    },
                }
            }
            nskip = nskip + 1;
        }
        i = i + 1;
    }
    assert(skip@.take(skip.len() as int) =~= skip@);
    proof {
        lemma_yielding_turns_shape(env, st, bounds, turns.len() as int);
        lemma_yielding_drafts_yield(env, sk, nskip as int);
        assert forall|j: int| 0 <= j < out@.len() implies {
            &&& (#[trigger] out@[j]).hits@.len() > 0
            &&& (out@[j].superseded_draft <==> out@[j].turn_index is None)
            &&& (out@[j].superseded_draft ==> address is Some)
            &&& (out@[j].turn_index is Some ==> j < ys.len() && out@[j].turn_index == Some(ys[j] as usize)
                && out@[j].turn_index->0 < turns@.len())
        } by {
            if j < ys.len() {
                assert(exchange_of(out@[j], ids_view(ids), ys[j], false, st[ys[j]], env));
                assert(turn_yields(env, ys[j], false, bounds, st[ys[j]]));
            } else {
                let d = j - ys.len();
                assert(exchange_of(out@[ys.len() + d], ids_view(ids), 0, true, seq![ds[d]], env));
                assert(turn_yields(env, 0, true, None, seq![ds[d]]));
                assert(address is Some);
            }
        }
        assert forall|a: int, b: int| 0 <= a < b < out@.len() && (#[trigger] out@[b]).turn_index is Some
            implies (#[trigger] out@[a]).turn_index is Some && out@[a].turn_index->0 < out@[b].turn_index->0 by {
            assert(exchange_of(out@[a], ids_view(ids), ys[a], false, st[ys[a]], env));
            assert(ys[a] < ys[b]);
        }
    }
    (out, turns.len(), nskip)
}

} // verus!
