//! The kept lines of one file's stats scan: the whole-file line-type census, the rows
//! the conversation chain walks (records and spine rows, in file order), and which rows
//! the `--since`/`--until`/`--turn` windows admit to the counts.

use vstd::prelude::*;
use crate::model::{Record, opt_view};
use crate::search::turns::{lemma_turn_members_in_range, spec_turns};
use crate::stats::tally::{bump, count_of, has_key, key_sorted};
use crate::time_window::{TimeWindow, spec_contains};

verus! {

/// One kept line of the stats scan.
#[derive(Debug, Clone)]
pub enum StatsLine {
    /// A role-marked line that parsed as a transcript record.
    Record(Record),
    /// Any other parseable line: its top-level `type` and, for a line type the
    /// conversation chain walks through, its structural spine row.
    Other(String, Option<Record>),
}

/// The key a record without a top-level `type` is censused under.
pub open spec fn untyped_key() -> Seq<char> {
    "(untyped)"@
}

/// The census key of a kept line: its top-level `type`.
pub open spec fn line_type_key(l: StatsLine) -> Seq<char> {
    match l {
        StatsLine::Record(r) => match r.record_type {
            Some(t) => t@,
            None => untyped_key(),
        },
        StatsLine::Other(t, _) => t@,
    }
}

/// The census keys of the kept lines, in order.
pub open spec fn type_keys(kept: Seq<StatsLine>) -> Seq<Seq<char>> {
    kept.map_values(|l: StatsLine| line_type_key(l))
}

/// How often `k` occurs in `s`.
pub open spec fn occurrences(s: Seq<Seq<char>>, k: Seq<char>) -> int
    decreases s.len(),
{
    if s.len() == 0 {
        0
    } else {
        occurrences(s.drop_last(), k) + (if s.last() == k { 1int } else { 0int })
    }
}

pub proof fn lemma_occurrences_bound(s: Seq<Seq<char>>, k: Seq<char>)
    ensures
        0 <= occurrences(s, k) <= s.len(),
    decreases s.len(),
{
    if s.len() > 0 {
        lemma_occurrences_bound(s.drop_last(), k);
    }
}

/// `k` occurs in `s` exactly when some element equals it.
pub proof fn lemma_occurrences_positive(s: Seq<Seq<char>>, k: Seq<char>)
    ensures
        occurrences(s, k) > 0 <==> s.contains(k),
    decreases s.len(),
{
    if s.len() > 0 {
        lemma_occurrences_positive(s.drop_last(), k);
        lemma_occurrences_bound(s.drop_last(), k);
        if s.drop_last().contains(k) {
            let j = choose|j: int| 0 <= j < s.drop_last().len() && s.drop_last()[j] == k;
            assert(s[j] == k);
        }
        if s.contains(k) && s.last() != k {
            let j = choose|j: int| 0 <= j < s.len() && s[j] == k;
            assert(s.drop_last()[j] == k);
        }
    }
}

/// The rows the conversation chain walks, in file order: every record (`false`) and
/// every spine row of a non-record line (`true`).
pub open spec fn stats_rows(kept: Seq<StatsLine>) -> Seq<(Record, bool)>
    decreases kept.len(),
{
    if kept.len() == 0 {
        seq![]
    } else {
        let prev = stats_rows(kept.drop_last());
        match kept.last() {
            StatsLine::Record(r) => prev.push((r, false)),
            StatsLine::Other(_, Some(s)) => prev.push((s, true)),
            StatsLine::Other(_, None) => prev,
        }
    }
}

pub open spec fn row_views(v: Seq<(&Record, bool)>) -> Seq<(Record, bool)> {
    v.map_values(|p: (&Record, bool)| (*p.0, p.1))
}

/// Census every kept line by its top-level `type` and lay out the chain rows.
pub fn split_kept<'a>(kept: &'a Vec<StatsLine>) -> (r: (Vec<(String, usize)>, Vec<(&'a Record, bool)>))
    ensures
        key_sorted(r.0@),
        forall|k: Seq<char>| #[trigger] count_of(r.0@, k) == occurrences(type_keys(kept@), k),
        forall|k: Seq<char>| #[trigger] has_key(r.0@, k) <==> type_keys(kept@).contains(k),
        row_views(r.1@) == stats_rows(kept@),
{
    let mut types: Vec<(String, usize)> = Vec::new();
    let mut rows: Vec<(&'a Record, bool)> = Vec::new();
    let mut i: usize = 0;
    proof { reveal_strlit("(untyped)"); }
    while i < kept.len()
        invariant
            i <= kept@.len(),
            key_sorted(types@),
            forall|k: Seq<char>| #[trigger] count_of(types@, k) == occurrences(type_keys(kept@.subrange(0, i as int)), k),
            forall|k: Seq<char>| #[trigger] has_key(types@, k) <==> type_keys(kept@.subrange(0, i as int)).contains(k),
            row_views(rows@) == stats_rows(kept@.subrange(0, i as int)),
        decreases kept.len() - i,
    {
        let ghost pre = kept@.subrange(0, i as int);
        let ghost next = kept@.subrange(0, i + 1);
        assert(next.drop_last() =~= pre);
        assert(type_keys(next) =~= type_keys(pre).push(line_type_key(kept@[i as int])));
        assert(type_keys(next).drop_last() =~= type_keys(pre));
        proof {
            lemma_occurrences_bound(type_keys(pre), line_type_key(kept@[i as int]));
        }
        match &kept[i] {
            StatsLine::Record(rec) => {
                match &rec.record_type {
                    Some(t) => bump(&mut types, t.as_str(), 1),
                    None => bump(&mut types, "(untyped)", 1),
                }
                rows.push((rec, false));
            },
            StatsLine::Other(t, spine) => {
                bump(&mut types, t.as_str(), 1);
                if let Some(s) = spine {
                    rows.push((s, true));
                }
            },
        }
        proof {
            let kk = line_type_key(kept@[i as int]);
            assert forall|k: Seq<char>| #[trigger] has_key(types@, k) <==> type_keys(next).contains(k) by {
                if type_keys(next).contains(k) && k != kk {
                    let j = choose|j: int| 0 <= j < type_keys(next).len() && type_keys(next)[j] == k;
                    assert(type_keys(pre)[j] == k);
                }
                if type_keys(pre).contains(k) {
                    let j = choose|j: int| 0 <= j < type_keys(pre).len() && type_keys(pre)[j] == k;
                    assert(type_keys(next)[j] == k);
                }
                if k == kk {
                    assert(type_keys(next)[i as int] == k);
                }
            }
            assert(row_views(rows@) =~= stats_rows(next));
        }
        i = i + 1;
    }
    assert(kept@.subrange(0, kept@.len() as int) =~= kept@);
    (types, rows)
}

/// Does turn `t` of `groups`, for some `t` in `lo..=hi`, hold row `i`?
pub open spec fn in_turns(groups: Seq<Seq<int>>, lo: int, hi: int, i: int) -> bool {
    exists|t: int| 0 <= t < groups.len() && lo <= t <= hi && (#[trigger] groups[t]).contains(i)
}

/// Is row `i` counted: a record (no spine row), inside the time window, and — under a
/// `--turn` range — a member of one of the turns it selects.
pub open spec fn spec_admit(rows: Seq<(Record, bool)>, i: int, w: TimeWindow, groups: Seq<Seq<int>>,
    bounds: Option<(usize, usize)>) -> bool
{
    &&& !rows[i].1
    &&& spec_contains(w, opt_view(rows[i].0.timestamp))
    &&& match bounds {
        Some(b) => in_turns(groups, b.0 as int, b.1 as int, i),
        None => true,
    }
}

/// Per-row membership in the turns `lo..=hi` select.
fn turn_membership(n: usize, groups: &Vec<Vec<usize>>, lo: usize, hi: usize, ghost_groups: Ghost<Seq<Seq<int>>>) -> (keep: Vec<bool>)
    requires
        groups@.len() == ghost_groups@.len(),
        forall|t: int| 0 <= t < groups@.len() ==> (#[trigger] groups@[t])@.map_values(|i: usize| i as int) == ghost_groups@[t],
        forall|t: int, q: int| 0 <= t < ghost_groups@.len() && 0 <= q < ghost_groups@[t].len()
            ==> 0 <= #[trigger] ghost_groups@[t][q] < n,
    ensures
        keep@.len() == n,
        forall|i: int| 0 <= i < n ==> (#[trigger] keep@[i] <==> in_turns(ghost_groups@, lo as int, hi as int, i)),
{
    let ghost g = ghost_groups@;
    let mut keep: Vec<bool> = Vec::new();
    let mut j: usize = 0;
    while j < n
        invariant
            j <= n,
            keep@.len() == j,
            forall|i: int| 0 <= i < j ==> !(#[trigger] keep@[i]),
        decreases n - j,
    {
        keep.push(false);
        j = j + 1;
    }
    let mut t: usize = 0;
    while t < groups.len()
        invariant
            t <= groups@.len(),
            groups@.len() == g.len(),
            forall|a: int| 0 <= a < groups@.len() ==> (#[trigger] groups@[a])@.map_values(|i: usize| i as int) == g[a],
            forall|a: int, q: int| 0 <= a < g.len() && 0 <= q < g[a].len() ==> 0 <= #[trigger] g[a][q] < n,
            keep@.len() == n,
            forall|i: int| 0 <= i < n ==> (#[trigger] keep@[i] <==>
                exists|a: int| 0 <= a < t && lo <= a <= hi && (#[trigger] g[a]).contains(i)),
        decreases groups.len() - t,
    {
        if lo <= t && t <= hi {
            let grp = &groups[t];
            assert(grp@.map_values(|i: usize| i as int) == g[t as int]);
            let ghost before = keep@;
            let mut q: usize = 0;
            while q < grp.len()
                invariant
                    q <= grp@.len(),
                    grp@.map_values(|i: usize| i as int) == g[t as int],
                    forall|qq: int| 0 <= qq < g[t as int].len() ==> 0 <= #[trigger] g[t as int][qq] < n,
                    keep@.len() == n,
                    forall|i: int| 0 <= i < n ==> (#[trigger] keep@[i] <==>
                        (before[i] || exists|qq: int| 0 <= qq < q && g[t as int][qq] == i)),
                decreases grp.len() - q,
            {
                let m = grp[q];
                assert(g[t as int][q as int] == m as int);
                keep.set(m, true);
                q = q + 1;
            }
            proof {
                assert forall|i: int| 0 <= i < n implies (#[trigger] keep@[i] <==>
                    exists|a: int| 0 <= a < t + 1 && lo <= a <= hi && (#[trigger] g[a]).contains(i)) by {
                    if keep@[i] && !before[i] {
                        let qq = choose|qq: int| 0 <= qq < grp@.len() && g[t as int][qq] == i;
                        assert(g[t as int].contains(i));
                    }
                    if exists|a: int| 0 <= a < t + 1 && lo <= a <= hi && (#[trigger] g[a]).contains(i) {
                        let a = choose|a: int| 0 <= a < t + 1 && lo <= a <= hi && (#[trigger] g[a]).contains(i);
                        if a == t {
                            let qq = choose|qq: int| 0 <= qq < g[a].len() && g[a][qq] == i;
                            assert(0 <= qq < grp@.len());
                        }
                    }
                }
            }
        } else {
            proof {
                assert forall|i: int| 0 <= i < n implies (#[trigger] keep@[i] <==>
                    exists|a: int| 0 <= a < t + 1 && lo <= a <= hi && (#[trigger] g[a]).contains(i)) by {
                    if exists|a: int| 0 <= a < t + 1 && lo <= a <= hi && (#[trigger] g[a]).contains(i) {
                        let a = choose|a: int| 0 <= a < t + 1 && lo <= a <= hi && (#[trigger] g[a]).contains(i);
                        assert(a < t);
                    }
                }
            }
        }
        t = t + 1;
    }
    keep
}

/// Which rows count (see [`spec_admit`]); `groups` is the live turn grouping of the rows.
pub fn admit_rows(rows: &Vec<(&Record, bool)>, opens: &[bool], skip: &[bool], groups: &Vec<Vec<usize>>,
    window: &TimeWindow, bounds: Option<(usize, usize)>) -> (adm: Vec<bool>)
    requires
        opens@.len() == skip@.len(),
        opens@.len() == rows@.len(),
        groups@.len() == spec_turns(opens@, skip@).len(),
        forall|k: int| 0 <= k < groups@.len() ==> (#[trigger] groups@[k])@.map_values(|i: usize| i as int) == spec_turns(opens@, skip@)[k],
    ensures
        adm@.len() == rows@.len(),
        forall|i: int| 0 <= i < rows@.len() ==> (#[trigger] adm@[i] <==> spec_admit(row_views(rows@), i, *window,
            spec_turns(opens@, skip@), bounds)),
{
    let ghost g = spec_turns(opens@, skip@);
    proof { lemma_turn_members_in_range(opens@, skip@); }
    let member: Option<Vec<bool>> = match bounds {
        Some((lo, hi)) => Some(turn_membership(rows.len(), groups, lo, hi, Ghost(g))),
        None => None,
    };
    let mut adm: Vec<bool> = Vec::new();
    let mut i: usize = 0;
    while i < rows.len()
        invariant
            i <= rows@.len(),
            adm@.len() == i,
            match member {
                Some(m) => match bounds {
                    Some(b) => m@.len() == rows@.len()
                        && forall|j: int| 0 <= j < rows@.len() ==> (#[trigger] m@[j] <==> in_turns(g, b.0 as int, b.1 as int, j)),
                    None => false,
                },
                None => bounds is None,
            },
            forall|j: int| 0 <= j < i ==> (#[trigger] adm@[j] <==> spec_admit(row_views(rows@), j, *window, g, bounds)),
        decreases rows.len() - i,
    {
        let (rec, spine) = rows[i];
        let ts: Option<&str> = match &rec.timestamp {
            Some(t) => Some(t.as_str()),
            None => None,
        };
        let in_range = match &member {
            Some(m) => m[i],
            None => true,
        };
        let a = !spine && window.contains(ts) && in_range;
        proof {
            assert(row_views(rows@)[i as int] == (*rec, spine));
            assert(opt_view(rec.timestamp) == match ts { Some(t) => Some(t@), None => None });
        }
        adm.push(a);
        i = i + 1;
    }
    adm
}

} // verus!
