//! Record addressing and the census helpers over matched exchanges: record groups, the
//! label census, sidecar / truncation flags, distinct sessions, the timeline sort key.

use vstd::prelude::*;
use crate::chars::str_eq;
use crate::labels::{Class, spec_path};
use crate::model::opt_view;
use crate::search::filter::{LabelFilter, spec_selected};
use crate::search::rows::Kept;
use crate::search::types::{Exchange, Hit};

verus! {

/// Record-address selectors (`--line` / `--uuid`): a record is addressed when its
/// physical line or its uuid is listed.
#[derive(Debug, Clone)]
pub struct AddressSet {
    pub lines: Vec<usize>,
    pub uuids: Vec<String>,
}

/// Is the record addressed?
pub open spec fn spec_addresses(a: AddressSet, line_no: usize, uuid: Option<Seq<char>>) -> bool {
    a.lines@.contains(line_no)
        || (match uuid {
            Some(u) => exists|i: int| 0 <= i < a.uuids@.len() && #[trigger] a.uuids@[i]@ == u,
            None => false,
        })
}

impl AddressSet {
    /// Is this retained record one of the addressed ones?
    pub fn addresses(&self, kept: &Kept) -> (b: bool)
        ensures
            b == spec_addresses(*self, kept.line_no, opt_view(kept.rec.uuid)),
    {
        let mut i: usize = 0;
        while i < self.lines.len()
            invariant
                i <= self.lines.len(),
                forall|k: int| 0 <= k < i ==> self.lines@[k] != kept.line_no,
            decreases self.lines.len() - i,
        {
            if self.lines[i] == kept.line_no {
                assert(self.lines@[i as int] == kept.line_no);
                return true;
            }
            i = i + 1;
        }
        let u = match &kept.rec.uuid {
            Some(u) => u,
            None => return false,
        };
        let mut j: usize = 0;
        while j < self.uuids.len()
            invariant
                j <= self.uuids.len(),
                !self.lines@.contains(kept.line_no),
                forall|k: int| 0 <= k < j ==> self.uuids@[k]@ != u@,
                kept.rec.uuid == Some(*u),
            decreases self.uuids.len() - j,
        {
            if str_eq(self.uuids[j].as_str(), u.as_str()) {
                assert(self.uuids@[j as int]@ == u@);
                return true;
            }
            j = j + 1;
        }
        false
    }
}

/// `groups` are the record groups of `hits`: consecutive, non-empty ranges covering
/// every hit in order; a range of a located hit runs while the line stays the same and
/// no further; an unlocated hit (line 0) is a range of its own.
pub open spec fn is_grouping(hits: Seq<Hit>, groups: Seq<(usize, usize)>) -> bool {
    &&& groups.len() > 0 ==> groups[0].0 == 0
    &&& groups.len() > 0 ==> groups.last().1 == hits.len()
    &&& groups.len() == 0 ==> hits.len() == 0
    &&& forall|g: int| 0 <= g < groups.len() ==> (#[trigger] groups[g]).0 < groups[g].1 <= hits.len()
    &&& forall|g: int| 0 <= g < groups.len() - 1 ==> (#[trigger] groups[g]).1 == groups[g + 1].0
    &&& forall|g: int, k: int| #![trigger groups[g], hits[k]] 0 <= g < groups.len() && groups[g].0 < k < groups[g].1 ==>
        hits[groups[g].0 as int].line > 0 && hits[k].line == hits[groups[g].0 as int].line
    &&& forall|g: int| 0 <= g < groups.len() && (#[trigger] groups[g]).1 < hits.len() ==>
        (hits[groups[g].0 as int].line == 0 || hits[groups[g].1 as int].line != hits[groups[g].0 as int].line)
}

/// The record groups of an exchange's hits: one record can emit several hits, as a run
/// of consecutive hits sharing a physical line; an unlocated (sidecar) hit is its own
/// group. Each group is a half-open index range.
pub fn record_groups(hits: &Vec<Hit>) -> (out: Vec<(usize, usize)>)
    ensures
        is_grouping(hits@, out@),
{
    let mut out: Vec<(usize, usize)> = Vec::new();
    let mut i: usize = 0;
    while i < hits.len()
        invariant
            i <= hits.len(),
            out@.len() > 0 ==> out@[0].0 == 0,
            out@.len() > 0 ==> out@.last().1 == i,
            out@.len() == 0 ==> i == 0,
            forall|g: int| 0 <= g < out@.len() ==> (#[trigger] out@[g]).0 < out@[g].1 <= i,
            forall|g: int| 0 <= g < out@.len() - 1 ==> (#[trigger] out@[g]).1 == out@[g + 1].0,
            forall|g: int, k: int| #![trigger out@[g], hits@[k]] 0 <= g < out@.len() && out@[g].0 < k < out@[g].1 ==>
                hits@[out@[g].0 as int].line > 0 && hits@[k].line == hits@[out@[g].0 as int].line,
            forall|g: int| 0 <= g < out@.len() && (#[trigger] out@[g]).1 < hits@.len() && out@[g].1 <= i ==>
                (g < out@.len() - 1 || out@[g].1 == i) &&
                (hits@[out@[g].0 as int].line == 0 || hits@[out@[g].1 as int].line != hits@[out@[g].0 as int].line),
        decreases hits.len() - i,
    {
        let mut j = i + 1;
        if hits[i].line > 0 {
            while j < hits.len() && hits[j].line == hits[i].line
                invariant
                    i < j <= hits.len(),
                    hits@[i as int].line > 0,
                    forall|k: int| i < k < j ==> (#[trigger] hits@[k]).line == hits@[i as int].line,
                decreases hits.len() - j,
            {
                j = j + 1;
            }
        }
        let ghost before = out@;
        out.push((i, j));
        assert forall|g: int| 0 <= g < out@.len() && (#[trigger] out@[g]).1 < hits@.len() && out@[g].1 <= j implies
            (g < out@.len() - 1 || out@[g].1 == j) &&
            (hits@[out@[g].0 as int].line == 0 || hits@[out@[g].1 as int].line != hits@[out@[g].0 as int].line) by {
            if g < before.len() {
                assert(out@[g] == before[g]);
            }
        }
        i = j;
    }
    out
}

/// Does any hit or sibling of these exchanges satisfy `p`?
pub open spec fn any_hit(exs: Seq<Exchange>, sidecar: bool) -> bool {
    exists|e: int, k: int| 0 <= e < exs.len() && (
        (0 <= k < exs[e].hits@.len() && (if sidecar { exs[e].hits@[k].from_sidecar } else { exs[e].hits@[k].truncated }))
        || (0 <= k < exs[e].siblings@.len() && (if sidecar { exs[e].siblings@[k].from_sidecar } else { exs[e].siblings@[k].truncated })))
}

fn any_flag(exchanges: &Vec<Exchange>, sidecar: bool) -> (b: bool)
    ensures
        b == any_hit(exchanges@, sidecar),
{
    let mut e: usize = 0;
    while e < exchanges.len()
        invariant
            e <= exchanges.len(),
            forall|x: int, k: int| 0 <= x < e ==> !(
                (0 <= k < exchanges@[x].hits@.len() && (if sidecar { exchanges@[x].hits@[k].from_sidecar } else { exchanges@[x].hits@[k].truncated }))
                || (0 <= k < exchanges@[x].siblings@.len() && (if sidecar { exchanges@[x].siblings@[k].from_sidecar } else { exchanges@[x].siblings@[k].truncated }))),
        decreases exchanges.len() - e,
    {
        let ex = &exchanges[e];
        let mut k: usize = 0;
        while k < ex.hits.len()
            invariant
                k <= ex.hits@.len(),
                e < exchanges@.len(),
                *ex == exchanges@[e as int],
                forall|q: int| 0 <= q < k ==> !(if sidecar { ex.hits@[q].from_sidecar } else { ex.hits@[q].truncated }),
            decreases ex.hits.len() - k,
        {
            let f = if sidecar { ex.hits[k].from_sidecar } else { ex.hits[k].truncated };
            if f {
                assert(0 <= e < exchanges@.len() && (
                    (0 <= k < exchanges@[e as int].hits@.len() && (if sidecar { exchanges@[e as int].hits@[k as int].from_sidecar } else { exchanges@[e as int].hits@[k as int].truncated }))
                    || (0 <= k < exchanges@[e as int].siblings@.len() && (if sidecar { exchanges@[e as int].siblings@[k as int].from_sidecar } else { exchanges@[e as int].siblings@[k as int].truncated }))));
                return true;
            }
            k = k + 1;
        }
        let mut k2: usize = 0;
        while k2 < ex.siblings.len()
            invariant
                k2 <= ex.siblings@.len(),
                e < exchanges@.len(),
                *ex == exchanges@[e as int],
                forall|q: int| 0 <= q < k2 ==> !(if sidecar { ex.siblings@[q].from_sidecar } else { ex.siblings@[q].truncated }),
            decreases ex.siblings.len() - k2,
        {
            let f = if sidecar { ex.siblings[k2].from_sidecar } else { ex.siblings[k2].truncated };
            if f {
                assert(0 <= e < exchanges@.len() && (
                    (0 <= k2 < exchanges@[e as int].hits@.len() && (if sidecar { exchanges@[e as int].hits@[k2 as int].from_sidecar } else { exchanges@[e as int].hits@[k2 as int].truncated }))
                    || (0 <= k2 < exchanges@[e as int].siblings@.len() && (if sidecar { exchanges@[e as int].siblings@[k2 as int].from_sidecar } else { exchanges@[e as int].siblings@[k2 as int].truncated }))));
                return true;
            }
            k2 = k2 + 1;
        }
        assert forall|x: int, k: int| 0 <= x < e + 1 implies !(
                (0 <= k < exchanges@[x].hits@.len() && (if sidecar { exchanges@[x].hits@[k].from_sidecar } else { exchanges@[x].hits@[k].truncated }))
                || (0 <= k < exchanges@[x].siblings@.len() && (if sidecar { exchanges@[x].siblings@[k].from_sidecar } else { exchanges@[x].siblings@[k].truncated }))) by {
        }
        e = e + 1;
    }
    false
}

/// True when any emitted hit or sibling came from the elicitation sidecar.
pub fn merged_any_sidecar(exchanges: &Vec<Exchange>) -> (b: bool)
    ensures
        b == any_hit(exchanges@, true),
{
    any_flag(exchanges, true)
}

/// True when any emitted hit or sibling excerpt was clipped to the default cap.
pub fn any_truncated_excerpt(exchanges: &Vec<Exchange>) -> (b: bool)
    ensures
        b == any_hit(exchanges@, false),
{
    any_flag(exchanges, false)
}

/// The distinct session ids of `exs`, in first-seen order.
pub open spec fn distinct_ids(exs: Seq<Exchange>) -> Seq<Seq<char>>
    decreases exs.len(),
{
    if exs.len() == 0 {
        Seq::empty()
    } else {
        let d = distinct_ids(exs.drop_last());
        if d.contains(exs.last().session_id@) { d } else { d.push(exs.last().session_id@) }
    }
}

/// How many distinct transcripts these exchanges come from.
pub fn distinct_session_count(exchanges: &Vec<Exchange>) -> (n: usize)
    ensures
        n == distinct_ids(exchanges@).len(),
{
    let mut seen: Vec<String> = Vec::new();
    let mut e: usize = 0;
    while e < exchanges.len()
        invariant
            e <= exchanges.len(),
            seen@.map_values(|s: String| s@) == distinct_ids(exchanges@.take(e as int)),
        decreases exchanges.len() - e,
    {
        assert(exchanges@.take(e as int + 1).drop_last() =~= exchanges@.take(e as int));
        let id = &exchanges[e].session_id;
        let mut found = false;
        let mut k: usize = 0;
        while k < seen.len()
            invariant
                k <= seen@.len(),
                found == exists|q: int| 0 <= q < k && seen@[q]@ == id@,
            decreases seen.len() - k,
        {
            if str_eq(seen[k].as_str(), id.as_str()) {
                found = true;
            }
            k = k + 1;
        }
        let ghost views = seen@.map_values(|s: String| s@);
        assert(found == views.contains(id@)) by {
            if views.contains(id@) {
                let q = choose|q: int| 0 <= q < views.len() && views[q] == id@;
                assert(seen@[q]@ == id@);
            }
            if found {
                let q = choose|q: int| 0 <= q < k && seen@[q]@ == id@;
                assert(views[q] == id@);
            }
        }
        if !found {
            seen.push(id.clone());
            assert(seen@.map_values(|s: String| s@) =~= views.push(id@));
        }
        e = e + 1;
    }
    assert(exchanges@.take(exchanges.len() as int) =~= exchanges@);
    seen.len()
}

/// Sort key placing timestamp-less exchanges last and ordering the rest as text
/// (ISO-8601 UTC sorts chronologically).
pub fn timestamp_sort_key(ts: Option<&str>) -> (k: (bool, &str))
    ensures
        match ts {
            Some(t) => !k.0 && k.1@ == t@,
            None => k.0 && k.1@ == Seq::<char>::empty(),
        },
{
    match ts {
        Some(t) => (false, t),
        None => {
            let e = "";
            proof { reveal_strlit(""); }
            (true, e)
        },
    }
}

} // verus!
