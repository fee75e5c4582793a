//! `show --branch-points`: conversation fork facts for one transcript.
//!
//! A rewind, retry or parallel lane leaves one plain DAG fact: some record has more than
//! one conversation child. The forks are reported ranked by the widest gap between
//! consecutive children (a rewind usually shows a wide gap, a parallel lane a near-zero
//! one). Which child is live, and what became of the others, is the conversation chain's
//! verdict, handed in per row.
//!
//! A conversation child is a `user`/`assistant` record, excluding user records that carry
//! a `tool_result` block, `isMeta` records and compaction summaries; the parent can be any
//! row, spine rows included.

use vstd::prelude::*;
use crate::chars::str_eq;
use crate::durations::{iso_millis, millis_to_secs, parse_iso_millis, trunc_div};
use crate::model::{Record, any_tool_result, has_tool_result, opt_view, spec_blocks};
use crate::search::hits::record_blocks;
use crate::stats::order::{isort, lemma_ins_at, lemma_isort_sorted, sorted_by, strict_order, lemma_isort_multiset};
use crate::chars::{decimal, push_decimal};
use crate::durations::{gap_label, spec_gap_label};
use crate::model::join;
use crate::stats::render::{dec, malformed_note, malformed_note_text};
use crate::search::text_out::{line_views, push_line};

verus! {

/// A row's place in the surviving conversation.
#[derive(Debug, Clone, Copy, PartialEq, Eq, Structural)]
pub enum Survival {
    Live,
    PreCut,
    Abandoned,
}

/// How the chain classifies an abandoned turn opener.
#[derive(Debug, Clone, Copy, PartialEq, Eq, Structural)]
pub enum OpenerKind {
    /// Answered, then rewound past.
    Rewound,
    /// Nothing ever answered it.
    Draft,
}

/// The chain's facts about one row.
#[derive(Debug, Clone, Copy, PartialEq, Eq, Structural)]
pub struct ChainFate {
    pub survival: Survival,
    pub kind: Option<OpenerKind>,
}

/// The finer reading a fork reader wants.
#[derive(Debug, Clone, Copy, PartialEq, Eq, Structural)]
pub enum Verdict {
    Live,
    Rewound,
    Draft,
    Abandoned,
    PreCut,
}

/// The verdict of a child: `live`, `pre-cut`, or for an abandoned child `rewound` /
/// `draft` as the chain classifies it, else `abandoned`.
pub open spec fn spec_verdict(f: ChainFate) -> Verdict {
    match f.survival {
        Survival::Live => Verdict::Live,
        Survival::PreCut => Verdict::PreCut,
        Survival::Abandoned => match f.kind {
            Some(OpenerKind::Rewound) => Verdict::Rewound,
            Some(OpenerKind::Draft) => Verdict::Draft,
            None => Verdict::Abandoned,
        },
    }
}

pub fn survival_verdict(f: ChainFate) -> (v: Verdict)
    ensures
        v == spec_verdict(f),
{
    match f.survival {
        Survival::Live => Verdict::Live,
        Survival::PreCut => Verdict::PreCut,
        Survival::Abandoned => match f.kind {
            Some(OpenerKind::Rewound) => Verdict::Rewound,
            Some(OpenerKind::Draft) => Verdict::Draft,
            None => Verdict::Abandoned,
        },
    }
}

impl Survival {
    pub fn label(self) -> (l: &'static str)
        ensures
            l@ == match self { Survival::Live => "live"@, Survival::PreCut => "pre-cut"@, Survival::Abandoned => "abandoned"@ },
    {
        match self {
            Survival::Live => "live",
            Survival::PreCut => "pre-cut",
            Survival::Abandoned => "abandoned",
        }
    }
}

impl Verdict {
    pub fn label(self) -> (l: &'static str)
        ensures
            l@ == match self {
                Verdict::Live => "live"@,
                Verdict::Rewound => "rewound"@,
                Verdict::Draft => "draft"@,
                Verdict::Abandoned => "abandoned"@,
                Verdict::PreCut => "pre-cut"@,
            },
    {
        match self {
            Verdict::Live => "live",
            Verdict::Rewound => "rewound",
            Verdict::Draft => "draft",
            Verdict::Abandoned => "abandoned",
            Verdict::PreCut => "pre-cut",
        }
    }
}

/// Is the record a conversation child: an `assistant` record, or a `user` record that is
/// not meta, not a compaction summary and carries no `tool_result` block?
pub open spec fn is_conversation(r: Record) -> bool {
    if opt_view(r.record_type) == Some("assistant"@) {
        true
    } else if opt_view(r.record_type) == Some("user"@) {
        r.is_meta != Some(true) && r.is_compact_summary != Some(true)
            && !(match spec_blocks(r) { Some(bs) => has_tool_result(bs), None => false })
    } else {
        false
    }
}

pub fn is_conversation_record(r: &Record) -> (b: bool)
    ensures
        b == is_conversation(*r),
{
    proof {
        reveal_strlit("assistant");
        reveal_strlit("user");
    }
    match &r.record_type {
        Some(t) => {
            if str_eq(t.as_str(), "assistant") {
                true
            } else if str_eq(t.as_str(), "user") {
                r.is_meta != Some(true) && r.is_compact_summary != Some(true) && match record_blocks(r) {
                    Some(bs) => !any_tool_result(bs),
                    None => true,
                }
            } else {
                false
            }
        },
        None => false,
    }
}

/// One row: its line, its record, and whether it is a spine row (never a child).
pub open spec fn row_view(r: (usize, Record, bool)) -> (usize, Record, bool) {
    r
}

/// Is row `i` a conversation child of the record with uuid `p`?
pub open spec fn child_of(rows: Seq<(usize, Record, bool)>, i: int, p: Seq<char>) -> bool {
    !rows[i].2 && is_conversation(rows[i].1) && opt_view(rows[i].1.parent_uuid) == Some(p)
}

/// The parent uuid of row `i`, when it is a conversation child with a parent.
pub open spec fn parent_key(rows: Seq<(usize, Record, bool)>, i: int) -> Option<Seq<char>> {
    if !rows[i].2 && is_conversation(rows[i].1) { opt_view(rows[i].1.parent_uuid) } else { None }
}

/// How many conversation records (full rows) the first `n` rows hold.
pub open spec fn conversation_count(rows: Seq<(usize, Record, bool)>, n: int) -> int
    decreases n,
{
    if n <= 0 {
        0
    } else {
        conversation_count(rows, n - 1) + (if !rows[n - 1].2 && is_conversation(rows[n - 1].1) { 1int } else { 0int })
    }
}

/// The distinct parent uuids among the first `n` rows, in order of their first child.
pub open spec fn parents(rows: Seq<(usize, Record, bool)>, n: int) -> Seq<Seq<char>>
    decreases n,
{
    if n <= 0 {
        seq![]
    } else {
        let p = parents(rows, n - 1);
        match parent_key(rows, n - 1) {
            Some(k) => if p.contains(k) { p } else { p.push(k) },
            None => p,
        }
    }
}

/// The child rows of `p` among the first `n` rows, in row order.
pub open spec fn children(rows: Seq<(usize, Record, bool)>, p: Seq<char>, n: int) -> Seq<int>
    decreases n,
{
    if n <= 0 {
        seq![]
    } else {
        let c = children(rows, p, n - 1);
        if parent_key(rows, n - 1) == Some(p) { c.push(n - 1) } else { c }
    }
}

/// One child edge of a branch point.
#[derive(Debug, Clone)]
pub struct Child {
    pub line: usize,
    pub uuid: Option<String>,
    pub ts_utc: Option<String>,
    pub record_type: String,
    pub survival: Survival,
    pub verdict: Verdict,
}

pub type ChildView = (usize, Option<Seq<char>>, Option<Seq<char>>, Seq<char>, Survival, Verdict);

pub open spec fn child_view(c: Child) -> ChildView {
    (c.line, opt_view(c.uuid), opt_view(c.ts_utc), c.record_type@, c.survival, c.verdict)
}

/// The child edge row `i` makes.
pub open spec fn child_at(rows: Seq<(usize, Record, bool)>, fates: Seq<ChainFate>, i: int) -> ChildView {
    let r = rows[i].1;
    (rows[i].0, opt_view(r.uuid), opt_view(r.timestamp),
        match r.record_type { Some(t) => t@, None => "(untyped)"@ },
        fates[i].survival, spec_verdict(fates[i]))
}

/// Whole epoch seconds of a timestamp that parses (truncated toward zero).
pub open spec fn epoch_secs(t: Seq<char>) -> Option<int> {
    match iso_millis(t) {
        Some(ms) => Some(trunc_div(ms, 1000)),
        None => None,
    }
}

/// The widest gap between consecutive children among the first `k`, in whole seconds;
/// `None` as soon as one needed timestamp is absent or does not parse, and when there
/// is no pair.
pub open spec fn widest(cs: Seq<ChildView>, k: int) -> Option<int>
    decreases k,
{
    if k <= 1 {
        None
    } else {
        let a = cs[k - 2].2;
        let b = cs[k - 1].2;
        let g = match (a, b) {
            (Some(x), Some(y)) => match (epoch_secs(x), epoch_secs(y)) {
                (Some(sx), Some(sy)) => Some(if sy >= sx { sy - sx } else { sx - sy }),
                _ => None,
            },
            _ => None,
        };
        if k == 2 {
            g
        } else {
            match (widest(cs, k - 1), g) {
                (Some(w), Some(x)) => Some(if x > w { x } else { w }),
                _ => None,
            }
        }
    }
}

/// One record with two or more conversation children.
#[derive(Debug, Clone)]
pub struct BranchPoint {
    pub uuid: String,
    /// The parent's own line and top-level `type`; `None` when the uuid names no row.
    pub parent: Option<(usize, String)>,
    pub children: Vec<Child>,
    /// The lines of the children the chain still reaches.
    pub live_child_lines: Vec<usize>,
    /// The widest gap between consecutive children, in whole seconds.
    pub widest_gap_secs: Option<i64>,
}

pub type PointView = (Seq<char>, Option<(usize, Seq<char>)>, Seq<ChildView>, Seq<usize>, Option<int>);

pub open spec fn point_view(p: BranchPoint) -> PointView {
    (p.uuid@,
        match p.parent { Some(x) => Some((x.0, x.1@)), None => None },
        p.children@.map_values(|c: Child| child_view(c)),
        p.live_child_lines@,
        match p.widest_gap_secs { Some(w) => Some(w as int), None => None })
}

/// The last row (among the first `n`) whose uuid is `p`.
pub open spec fn last_row_with(rows: Seq<(usize, Record, bool)>, p: Seq<char>, n: int) -> Option<int>
    decreases n,
{
    if n <= 0 {
        None
    } else if opt_view(rows[n - 1].1.uuid) == Some(p) {
        Some(n - 1)
    } else {
        last_row_with(rows, p, n - 1)
    }
}

/// The lines of the live children, in order.
pub open spec fn live_lines(cs: Seq<ChildView>) -> Seq<usize>
    decreases cs.len(),
{
    if cs.len() == 0 {
        seq![]
    } else {
        let l = live_lines(cs.drop_last());
        if cs.last().4 == Survival::Live { l.push(cs.last().0) } else { l }
    }
}

/// The branch point of parent `p`.
pub open spec fn point_at(rows: Seq<(usize, Record, bool)>, fates: Seq<ChainFate>, p: Seq<char>) -> PointView {
    let cs = children(rows, p, rows.len() as int).map_values(|i: int| child_at(rows, fates, i));
    (p,
        match last_row_with(rows, p, rows.len() as int) {
            Some(j) => Some((rows[j].0, match rows[j].1.record_type { Some(t) => t@, None => "(untyped)"@ })),
            None => None,
        },
        cs,
        live_lines(cs),
        widest(cs, cs.len() as int))
}

/// The branch points of the first `n` parents (those with two or more children), in
/// order.
pub open spec fn forks_upto(keys: Seq<Seq<char>>, rows: Seq<(usize, Record, bool)>, fates: Seq<ChainFate>, n: int) -> Seq<PointView>
    decreases n,
{
    if n <= 0 {
        seq![]
    } else {
        let f = forks_upto(keys, rows, fates, n - 1);
        if children(rows, keys[n - 1], rows.len() as int).len() >= 2 { f.push(point_at(rows, fates, keys[n - 1])) } else { f }
    }
}

/// The forks, in order of first child.
pub open spec fn forks(rows: Seq<(usize, Record, bool)>, fates: Seq<ChainFate>) -> Seq<PointView> {
    let keys = parents(rows, rows.len() as int);
    forks_upto(keys, rows, fates, keys.len() as int)
}

/// Ranking: a known gap before an unknown one, a wider gap first, then the earlier first
/// child.
pub open spec fn rank_lt(a: PointView, b: PointView) -> bool {
    let fa = if a.2.len() > 0 { a.2[0].0 as int } else { 0 };
    let fb = if b.2.len() > 0 { b.2[0].0 as int } else { 0 };
    match (a.4, b.4) {
        (Some(wa), Some(wb)) => wa > wb || (wa == wb && fa < fb),
        (Some(_), None) => true,
        (None, Some(_)) => false,
        (None, None) => fa < fb,
    }
}

fn pushed(v: &Vec<usize>, x: usize) -> (out: Vec<usize>)
    ensures
        out@ == v@.push(x),
{
    let mut out: Vec<usize> = Vec::new();
    let mut i: usize = 0;
    while i < v.len()
        invariant
            i <= v@.len(),
            out@ == v@.take(i as int),
        decreases v.len() - i,
    {
        out.push(v[i]);
        assert(v@.take(i + 1) =~= v@.take(i as int).push(v@[i as int]));
        i = i + 1;
    }
    out.push(x);
    assert(v@.take(v@.len() as int) =~= v@);
    out
}

pub open spec fn index_views(v: Seq<usize>) -> Seq<int> {
    v.map_values(|i: usize| i as int)
}

/// Group the conversation children by parent uuid, in order of first child, and count
/// the conversation records.
fn group_children(rows: &Vec<(usize, Record, bool)>) -> (r: (Vec<String>, Vec<Vec<usize>>, usize))
    ensures
        r.0@.map_values(|s: String| s@) == parents(rows@, rows@.len() as int),
        r.1@.len() == r.0@.len(),
        forall|j: int| 0 <= j < r.1@.len() ==> index_views(#[trigger] r.1@[j]@) == children(rows@, r.0@[j]@, rows@.len() as int),
        forall|j: int, q: int| 0 <= j < r.1@.len() && 0 <= q < r.1@[j]@.len() ==> #[trigger] r.1@[j]@[q] < rows@.len(),
        r.2 == conversation_count(rows@, rows@.len() as int),
{
    let mut keys: Vec<String> = Vec::new();
    let mut members: Vec<Vec<usize>> = Vec::new();
    let mut count: usize = 0;
    let mut i: usize = 0;
    while i < rows.len()
        invariant
            i <= rows@.len(),
            count <= i,
            keys@.map_values(|s: String| s@) == parents(rows@, i as int),
            members@.len() == keys@.len(),
            forall|j: int| 0 <= j < members@.len() ==> index_views(#[trigger] members@[j]@) == children(rows@, keys@[j]@, i as int),
            forall|j: int, q: int| 0 <= j < members@.len() && 0 <= q < members@[j]@.len() ==> #[trigger] members@[j]@[q] < i,
            count == conversation_count(rows@, i as int),
        decreases rows.len() - i,
    {
        let conv = !rows[i].2 && is_conversation_record(&rows[i].1);
        if conv {
            count = count + 1;
        }
        let ghost kv = keys@.map_values(|s: String| s@);
        match (conv, &rows[i].1.parent_uuid) {
            (true, Some(p)) => {
                assert(parent_key(rows@, i as int) == Some(p@));
                let mut j: usize = 0;
                while j < keys.len() && !str_eq(keys[j].as_str(), p.as_str())
                    invariant
                        j <= keys@.len(),
                        kv == keys@.map_values(|s: String| s@),
                        forall|q: int| 0 <= q < j ==> kv[q] != p@,
                    decreases keys.len() - j,
                {
                    assert(kv[j as int] == keys@[j as int]@);
                    j = j + 1;
                }
                if j < keys.len() {
                    assert(kv[j as int] == p@);
                    assert(kv.contains(p@));
                    proof { lemma_parents_distinct(rows@, i as int); }
                    let grown = pushed(&members[j], i);
                    let ghost before = members@;
                    members.set(j, grown);
                    proof {
                        assert forall|q: int| 0 <= q < members@.len() implies index_views(#[trigger] members@[q]@)
                            == children(rows@, keys@[q]@, i + 1) by {
                            if q == j {
                                assert(index_views(members@[q]@) =~= index_views(before[q]@).push(i as int));
                            } else {
                                assert(kv[q] != kv[j as int]);
                                assert(members@[q] == before[q]);
                            }
                        }
                    }
                } else {
                    assert(!kv.contains(p@)) by {
                        if kv.contains(p@) {
                            let q = choose|q: int| 0 <= q < kv.len() && kv[q] == p@;
                        }
                    }
                    let ghost before = members@;
                    keys.push(p.clone());
                    let mut v: Vec<usize> = Vec::new();
                    v.push(i);
                    members.push(v);
                    proof {
                        assert(keys@.map_values(|s: String| s@) =~= kv.push(p@));
                        assert forall|q: int| 0 <= q < members@.len() implies index_views(#[trigger] members@[q]@)
                            == children(rows@, keys@[q]@, i + 1) by {
                            if q < before.len() {
                                assert(members@[q] == before[q]);
                                assert(keys@[q]@ == kv[q]);
                                assert(kv[q] != p@);
                            } else {
                                assert(children(rows@, p@, i as int) =~= seq![]) by {
                                    lemma_no_children(rows@, p@, i as int);
                                }
                                assert(index_views(members@[q]@) =~= seq![i as int]);
                            }
                        }
                    }
                }
            },
            _ => {
                proof {
                    assert(parent_key(rows@, i as int) is None);
                    assert forall|q: int| 0 <= q < members@.len() implies index_views(#[trigger] members@[q]@)
                        == children(rows@, keys@[q]@, i + 1) by {}
                }
            },
        }
        i = i + 1;
    }
    (keys, members, count)
}

/// No parent uuid occurs twice.
proof fn lemma_parents_distinct(rows: Seq<(usize, Record, bool)>, n: int)
    ensures
        forall|a: int, b: int| 0 <= a < b < parents(rows, n).len() ==> #[trigger] parents(rows, n)[a] != #[trigger] parents(rows, n)[b],
    decreases n,
{
    if n > 0 {
        lemma_parents_distinct(rows, n - 1);
        let pp = parents(rows, n - 1);
        let pn = parents(rows, n);
        assert forall|a: int, b: int| 0 <= a < b < pn.len() implies #[trigger] pn[a] != #[trigger] pn[b] by {
            if b < pp.len() {
                assert(pn[a] == pp[a] && pn[b] == pp[b]);
            } else {
                assert(pn[a] == pp[a]);
                if pn[a] == pn[b] {
                    assert(pp.contains(pn[b]));
                }
            }
        }
    }
}

/// A parent not yet seen has no children so far.
proof fn lemma_no_children(rows: Seq<(usize, Record, bool)>, p: Seq<char>, n: int)
    requires
        !parents(rows, n).contains(p),
    ensures
        children(rows, p, n).len() == 0,
    decreases n,
{
    if n > 0 {
        let pp = parents(rows, n - 1);
        if pp.contains(p) {
            let q = choose|q: int| 0 <= q < pp.len() && pp[q] == p;
            assert(parents(rows, n)[q] == p);
        }
        if parent_key(rows, n - 1) == Some(p) {
            assert(parents(rows, n)[pp.len() as int] == p);
        }
        lemma_no_children(rows, p, n - 1);
    }
}

fn child_from(rows: &Vec<(usize, Record, bool)>, fates: &Vec<ChainFate>, i: usize) -> (c: Child)
    requires
        i < rows@.len(),
        fates@.len() == rows@.len(),
    ensures
        child_view(c) == child_at(rows@, fates@, i as int),
{
    let r = &rows[i].1;
    let record_type = match &r.record_type {
        Some(t) => t.clone(),
        None => "(untyped)".to_string(),
    };
    Child {
        line: rows[i].0,
        uuid: match &r.uuid { Some(u) => Some(u.clone()), None => None },
        ts_utc: match &r.timestamp { Some(t) => Some(t.clone()), None => None },
        record_type,
        survival: fates[i].survival,
        verdict: survival_verdict(fates[i]),
    }
}

/// Whole epoch seconds of a timestamp, when it parses.
fn secs_of(ts: &Option<String>) -> (r: Option<i64>)
    ensures
        match ts {
            Some(t) => match r { Some(v) => epoch_secs(t@) == Some(v as int), None => epoch_secs(t@) is None },
            None => r is None,
        },
        r matches Some(v) ==> -10_000_000_000_000_000 < v < 10_000_000_000_000_000,
{
    match ts {
        Some(t) => match parse_iso_millis(t.as_str()) {
            Some(ms) => Some(millis_to_secs(ms)),
            None => None,
        },
        None => None,
    }
}

/// The gap between children `a` and `b`, when both timestamps parse.
fn pair_gap(cs: &Vec<Child>, a: usize, b: usize) -> (g: Option<i64>)
    requires
        a < cs@.len(),
        b < cs@.len(),
    ensures
        match (child_view(cs@[a as int]).2, child_view(cs@[b as int]).2) {
            (Some(x), Some(y)) => match (epoch_secs(x), epoch_secs(y)) {
                (Some(sx), Some(sy)) => g == Some((if sy >= sx { sy - sx } else { sx - sy }) as i64)
                    && (if sy >= sx { sy - sx } else { sx - sy }) < 20_000_000_000_000_000,
                _ => g is None,
            },
            _ => g is None,
        },
{
    match (secs_of(&cs[a].ts_utc), secs_of(&cs[b].ts_utc)) {
        (Some(x), Some(y)) => Some(if y >= x { y - x } else { x - y }),
        _ => None,
    }
}

fn live_lines_of(cs: &Vec<Child>) -> (out: Vec<usize>)
    ensures
        out@ == live_lines(cs@.map_values(|c: Child| child_view(c))),
{
    let ghost v = cs@.map_values(|c: Child| child_view(c));
    let mut out: Vec<usize> = Vec::new();
    let mut i: usize = 0;
    while i < cs.len()
        invariant
            i <= cs@.len(),
            v == cs@.map_values(|c: Child| child_view(c)),
            out@ == live_lines(v.take(i as int)),
        decreases cs.len() - i,
    {
        assert(v.take(i + 1).drop_last() =~= v.take(i as int));
        if cs[i].survival == Survival::Live {
            out.push(cs[i].line);
        }
        i = i + 1;
    }
    assert(v.take(cs@.len() as int) =~= v);
    out
}

fn widest_of(cs: &Vec<Child>) -> (w: Option<i64>)
    ensures
        (match w { Some(x) => Some(x as int), None => None }) == widest(cs@.map_values(|c: Child| child_view(c)), cs@.len() as int),
{
    let ghost v = cs@.map_values(|c: Child| child_view(c));
    let n = cs.len();
    let mut cur: Option<i64> = None;
    let mut k: usize = 1;
    if n == 0 {
        return None;
    }
    while k < n
        invariant
            1 <= k <= n,
            n == cs@.len(),
            v == cs@.map_values(|c: Child| child_view(c)),
            (match cur { Some(x) => Some(x as int), None => None }) == widest(v, k as int),
            cur matches Some(x) ==> 0 <= x < 20_000_000_000_000_000,
        decreases n - k,
    {
        let g = pair_gap(cs, k - 1, k);
        assert(v[k - 1] == child_view(cs@[k - 1]) && v[k as int] == child_view(cs@[k as int]));
        cur = if k == 1 {
            g
        } else {
            match (cur, g) {
                (Some(a), Some(b)) => Some(if b > a { b } else { a }),
                _ => None,
            }
        };
        k = k + 1;
    }
    cur
}

/// The last row whose uuid is `p`: its line and `type`.
fn parent_location(rows: &Vec<(usize, Record, bool)>, p: &str) -> (r: Option<(usize, String)>)
    ensures
        (match r { Some(x) => Some((x.0, x.1@)), None => None }) == match last_row_with(rows@, p@, rows@.len() as int) {
            Some(j) => Some((rows@[j].0, match rows@[j].1.record_type { Some(t) => t@, None => "(untyped)"@ })),
            None => None,
        },
{
    let mut i: usize = rows.len();
    while i > 0
        invariant
            i <= rows@.len(),
            last_row_with(rows@, p@, rows@.len() as int) == last_row_with(rows@, p@, i as int),
        decreases i,
    {
        let matched = match &rows[i - 1].1.uuid {
            Some(u) => str_eq(u.as_str(), p),
            None => false,
        };
        if matched {
            let t = match &rows[i - 1].1.record_type {
                Some(t) => t.clone(),
                None => "(untyped)".to_string(),
            };
            return Some((rows[i - 1].0, t));
        }
        i = i - 1;
    }
    None
}

/// The branch point of parent `key` with child rows `members`.
fn make_point(rows: &Vec<(usize, Record, bool)>, fates: &Vec<ChainFate>, key: &String, members: &Vec<usize>) -> (bp: BranchPoint)
    requires
        fates@.len() == rows@.len(),
        index_views(members@) == children(rows@, key@, rows@.len() as int),
        forall|q: int| 0 <= q < members@.len() ==> #[trigger] members@[q] < rows@.len(),
    ensures
        point_view(bp) == point_at(rows@, fates@, key@),
{
    let ghost idx = children(rows@, key@, rows@.len() as int);
    let mut cs: Vec<Child> = Vec::new();
    let mut q: usize = 0;
    while q < members.len()
        invariant
            q <= members@.len(),
            fates@.len() == rows@.len(),
            idx == index_views(members@),
            forall|x: int| 0 <= x < members@.len() ==> #[trigger] members@[x] < rows@.len(),
            cs@.map_values(|c: Child| child_view(c)) == idx.take(q as int).map_values(|i: int| child_at(rows@, fates@, i)),
        decreases members.len() - q,
    {
        let c = child_from(rows, fates, members[q]);
        assert(idx[q as int] == members@[q as int] as int);
        let ghost prev = cs@;
        cs.push(c);
        assert(idx.take(q + 1) =~= idx.take(q as int).push(idx[q as int]));
        assert(cs@.map_values(|c: Child| child_view(c)) =~= prev.map_values(|c: Child| child_view(c)).push(child_view(c)));
        assert(cs@.map_values(|c: Child| child_view(c)) =~= idx.take(q + 1).map_values(|i: int| child_at(rows@, fates@, i)));
        q = q + 1;
    }
    assert(idx.take(members@.len() as int) =~= idx);
    let live = live_lines_of(&cs);
    let w = widest_of(&cs);
    let parent = parent_location(rows, key.as_str());
    let bp = BranchPoint { uuid: key.clone(), parent, children: cs, live_child_lines: live, widest_gap_secs: w };
    assert(point_view(bp) =~= point_at(rows@, fates@, key@));
    bp
}

fn rank_before(a: &BranchPoint, b: &BranchPoint) -> (r: bool)
    ensures
        r == rank_lt(point_view(*a), point_view(*b)),
{
    let fa: usize = if a.children.len() > 0 { a.children[0].line } else { 0 };
    let fb: usize = if b.children.len() > 0 { b.children[0].line } else { 0 };
    match (a.widest_gap_secs, b.widest_gap_secs) {
        (Some(wa), Some(wb)) => wa > wb || (wa == wb && fa < fb),
        (Some(_), None) => true,
        (None, Some(_)) => false,
        (None, None) => fa < fb,
    }
}

pub open spec fn point_views(v: Seq<BranchPoint>) -> Seq<PointView> {
    v.map_values(|p: BranchPoint| point_view(p))
}

/// The forks of one transcript, ranked (see [`rank_lt`]), and how many conversation
/// records it holds. `rows` are the transcript's rows in file order (spine rows marked)
/// and `fates` the chain's verdict on each.
pub fn branch_points(rows: &Vec<(usize, Record, bool)>, fates: &Vec<ChainFate>) -> (r: (Vec<BranchPoint>, usize))
    requires
        fates@.len() == rows@.len(),
    ensures
        point_views(r.0@) == isort(forks(rows@, fates@), |a: PointView, b: PointView| rank_lt(a, b)),
        r.1 == conversation_count(rows@, rows@.len() as int),
        forall|i: int, j: int| 0 <= i < j < r.0@.len() && (#[trigger] r.0@[j]).widest_gap_secs is Some
            ==> (#[trigger] r.0@[i]).widest_gap_secs is Some,
        forall|i: int, j: int| 0 <= i < j < r.0@.len() && (#[trigger] r.0@[i]).widest_gap_secs is Some
            && (#[trigger] r.0@[j]).widest_gap_secs is Some
            ==> r.0@[j].widest_gap_secs->0 <= r.0@[i].widest_gap_secs->0,
{
    let ghost lt = |a: PointView, b: PointView| rank_lt(a, b);
    let (keys, members, count) = group_children(rows);
    let ghost kv = keys@.map_values(|s: String| s@);
    let mut out: Vec<BranchPoint> = Vec::new();
    let mut j: usize = 0;
    while j < keys.len()
        invariant
            j <= keys@.len(),
            fates@.len() == rows@.len(),
            kv == keys@.map_values(|s: String| s@),
            kv == parents(rows@, rows@.len() as int),
            members@.len() == keys@.len(),
            forall|x: int| 0 <= x < members@.len() ==> index_views(#[trigger] members@[x]@) == children(rows@, keys@[x]@, rows@.len() as int),
            forall|x: int, q: int| 0 <= x < members@.len() && 0 <= q < members@[x]@.len() ==> #[trigger] members@[x]@[q] < rows@.len(),
            lt == |a: PointView, b: PointView| rank_lt(a, b),
            point_views(out@) == isort(forks_upto(kv, rows@, fates@, j as int), lt),
        decreases keys.len() - j,
    {
        assert(kv[j as int] == keys@[j as int]@);
        if members[j].len() >= 2 {
            proof {
                assert(index_views(members@[j as int]@).len() == members@[j as int]@.len());
            }
            let bp = make_point(rows, fates, &keys[j], &members[j]);
            let ghost x = point_view(bp);
            let mut p: usize = 0;
            while p < out.len() && !rank_before(&bp, &out[p])
                invariant
                    p <= out@.len(),
                    x == point_view(bp),
                    lt == |a: PointView, b: PointView| rank_lt(a, b),
                    forall|q: int| 0 <= q < p ==> !lt(x, #[trigger] point_views(out@)[q]),
                decreases out.len() - p,
            {
                p = p + 1;
            }
            proof {
                lemma_ins_at(point_views(out@), x, lt, p as int);
            }
            let ghost before = out@;
            out.insert(p, bp);
            proof {
                assert(point_views(out@) =~= point_views(before).take(p as int).push(x) + point_views(before).skip(p as int));
                assert(forks_upto(kv, rows@, fates@, j + 1).drop_last() =~= forks_upto(kv, rows@, fates@, j as int));
            }
        } else {
            proof {
                assert(index_views(members@[j as int]@).len() == members@[j as int]@.len());
            }
        }
        j = j + 1;
    }
    proof {
        assert(forks_upto(kv, rows@, fates@, keys@.len() as int) == forks(rows@, fates@));
        lemma_widest_gap_first(rows@, fates@);
        let pv = point_views(out@);
        assert forall|i: int, j: int| 0 <= i < j < out@.len() && (#[trigger] out@[j]).widest_gap_secs is Some
            implies (#[trigger] out@[i]).widest_gap_secs is Some by {
            assert(pv[j] == point_view(out@[j]));
            assert(pv[i] == point_view(out@[i]));
            assert(pv[j].4 is Some);
            assert(pv[i].4 is Some);
        }
        assert forall|i: int, j: int| 0 <= i < j < out@.len() && (#[trigger] out@[i]).widest_gap_secs is Some
            && (#[trigger] out@[j]).widest_gap_secs is Some
            implies out@[j].widest_gap_secs->0 <= out@[i].widest_gap_secs->0 by {
            assert(pv[j] == point_view(out@[j]));
            assert(pv[i] == point_view(out@[i]));
            assert(pv[j].4->0 <= pv[i].4->0);
        }
    }
    (out, count)
}

/// Ranked forks: every fork whose widest gap is known comes before every fork whose gap
/// is unknown, and among known gaps a wider one never comes after a narrower one.
pub proof fn lemma_widest_gap_first(rows: Seq<(usize, Record, bool)>, fates: Seq<ChainFate>)
    ensures
        ({
            let r = isort(forks(rows, fates), |a: PointView, b: PointView| rank_lt(a, b));
            &&& forall|i: int, j: int| 0 <= i < j < r.len() && (#[trigger] r[j]).4 is Some ==> (#[trigger] r[i]).4 is Some
            &&& forall|i: int, j: int| 0 <= i < j < r.len() && (#[trigger] r[i]).4 is Some && (#[trigger] r[j]).4 is Some
                ==> r[j].4->0 <= r[i].4->0
        }),
{
    lemma_forks_ranked(rows, fates);
    let r = isort(forks(rows, fates), |a: PointView, b: PointView| rank_lt(a, b));
    assert forall|i: int, j: int| 0 <= i < j < r.len() && (#[trigger] r[j]).4 is Some implies (#[trigger] r[i]).4 is Some by {
        assert(!rank_lt(r[j], r[i]));
    }
    assert forall|i: int, j: int| 0 <= i < j < r.len() && (#[trigger] r[i]).4 is Some && (#[trigger] r[j]).4 is Some
        implies r[j].4->0 <= r[i].4->0 by {
        assert(!rank_lt(r[j], r[i]));
    }
}

/// `rank_lt` is a strict order.
proof fn lemma_rank_order()
    ensures
        strict_order(|a: PointView, b: PointView| rank_lt(a, b)),
{
}

/// The forks come out ranked: no fork is listed after one it ranks before — a known gap
/// before an unknown one, a wider gap first, the earlier first child on a tie.
pub proof fn lemma_forks_ranked(rows: Seq<(usize, Record, bool)>, fates: Seq<ChainFate>)
    ensures
        sorted_by(isort(forks(rows, fates), |a: PointView, b: PointView| rank_lt(a, b)),
            |a: PointView, b: PointView| rank_lt(a, b)),
        isort(forks(rows, fates), |a: PointView, b: PointView| rank_lt(a, b)).to_multiset() == forks(rows, fates).to_multiset(),
{
    lemma_rank_order();
    lemma_isort_sorted(forks(rows, fates), |a: PointView, b: PointView| rank_lt(a, b));
    lemma_isort_multiset(forks(rows, fates), |a: PointView, b: PointView| rank_lt(a, b));
}

/// Every fork has at least two children, each a conversation child of the fork's uuid,
/// in row order.
pub proof fn lemma_forks_are_forks(rows: Seq<(usize, Record, bool)>, fates: Seq<ChainFate>)
    ensures
        forall|k: int| 0 <= k < forks(rows, fates).len() ==> {
            let f = #[trigger] forks(rows, fates)[k];
            &&& f.2.len() >= 2
            &&& f.2.len() == children(rows, f.0, rows.len() as int).len()
            &&& forall|q: int| 0 <= q < children(rows, f.0, rows.len() as int).len() ==>
                child_of(rows, #[trigger] children(rows, f.0, rows.len() as int)[q], f.0)
        },
{
    let keys = parents(rows, rows.len() as int);
    lemma_forks_upto(keys, rows, fates, keys.len() as int);
}

proof fn lemma_children_are_children(rows: Seq<(usize, Record, bool)>, p: Seq<char>, n: int)
    ensures
        forall|q: int| 0 <= q < children(rows, p, n).len() ==> child_of(rows, #[trigger] children(rows, p, n)[q], p)
            && 0 <= children(rows, p, n)[q] < n,
    decreases n,
{
    if n > 0 {
        lemma_children_are_children(rows, p, n - 1);
        assert forall|q: int| 0 <= q < children(rows, p, n).len() implies child_of(rows, #[trigger] children(rows, p, n)[q], p)
            && 0 <= children(rows, p, n)[q] < n by {
            if q < children(rows, p, n - 1).len() {
                assert(children(rows, p, n)[q] == children(rows, p, n - 1)[q]);
            }
        }
    }
}

proof fn lemma_forks_upto(keys: Seq<Seq<char>>, rows: Seq<(usize, Record, bool)>, fates: Seq<ChainFate>, n: int)
    ensures
        forall|k: int| 0 <= k < forks_upto(keys, rows, fates, n).len() ==> {
            let f = #[trigger] forks_upto(keys, rows, fates, n)[k];
            &&& f.2.len() >= 2
            &&& f.2.len() == children(rows, f.0, rows.len() as int).len()
            &&& forall|q: int| 0 <= q < children(rows, f.0, rows.len() as int).len() ==>
                child_of(rows, #[trigger] children(rows, f.0, rows.len() as int)[q], f.0)
        },
    decreases n,
{
    if n > 0 {
        lemma_forks_upto(keys, rows, fates, n - 1);
        lemma_children_are_children(rows, keys[n - 1], rows.len() as int);
        let prev = forks_upto(keys, rows, fates, n - 1);
        let cur = forks_upto(keys, rows, fates, n);
        assert forall|k: int| 0 <= k < cur.len() implies {
            let f = #[trigger] cur[k];
            &&& f.2.len() >= 2
            &&& f.2.len() == children(rows, f.0, rows.len() as int).len()
            &&& forall|q: int| 0 <= q < children(rows, f.0, rows.len() as int).len() ==>
                child_of(rows, #[trigger] children(rows, f.0, rows.len() as int)[q], f.0)
        } by {
            if k < prev.len() {
                assert(cur[k] == prev[k]);
            }
        }
    }
}

/// The fork header's live-child clause.
pub open spec fn live_label(lines: Seq<usize>) -> Seq<char> {
    if lines.len() == 0 {
        "live child: none (this fork is off the surviving conversation)"@
    } else if lines.len() == 1 {
        "live child: L"@ + dec(lines[0] as int)
    } else {
        "live children: "@ + join(lines.map_values(|l: usize| "L"@ + dec(l as int)), " "@)
    }
}

pub fn live_child_label(lines: &Vec<usize>) -> (out: String)
    ensures
        out@ == live_label(lines@),
{
    let mut out = String::new();
    if lines.len() == 0 {
        out.append("live child: none (this fork is off the surviving conversation)");
    } else if lines.len() == 1 {
        out.append("live child: L");
        push_decimal(&mut out, lines[0] as u64);
    } else {
        out.append("live children: ");
        let ghost base = out@;
        let ghost parts = lines@.map_values(|l: usize| "L"@ + dec(l as int));
        let mut i: usize = 0;
        while i < lines.len()
            invariant
                i <= lines@.len(),
                parts == lines@.map_values(|l: usize| "L"@ + dec(l as int)),
                out@ == base + join(parts.take(i as int), " "@),
            decreases lines.len() - i,
        {
            let ghost before = out@;
            if i > 0 {
                out.append(" ");
            }
            out.append("L");
            push_decimal(&mut out, lines[i] as u64);
            proof {
                assert(parts.take(i + 1).drop_last() =~= parts.take(i as int));
                if i > 0 {
                    assert(out@ =~= before + " "@ + parts[i as int]);
                } else {
                    assert(parts.take(1) =~= seq![parts[0]]);
                    assert(out@ =~= base + parts[0]);
                }
            }
            i = i + 1;
        }
        assert(parts.take(lines@.len() as int) =~= parts);
    }
    out
}

/// The opening lines of the text report.
pub open spec fn branch_head(session_id: Seq<char>, conversation: int, points: int) -> Seq<Seq<char>> {
    seq!["BRANCH POINTS  "@ + session_id,
        "  "@ + dec(conversation) + " conversation record(s) · "@ + dec(points)
            + " branch point(s) (a record with 2+ conversation children; tool-result carriers, isMeta records, and compaction summaries never count)"@]
        + (if points == 0 { seq!["  no forks: every conversation record has at most one conversation child"@] } else { seq![] })
}

pub fn branch_head_lines(session_id: &str, conversation: usize, points: usize) -> (out: Vec<String>)
    ensures
        out@.map_values(|s: String| s@) == branch_head(session_id@, conversation as int, points as int),
{
    let mut v: Vec<String> = Vec::new();
    let mut a = String::new();
    a.append("BRANCH POINTS  ");
    a.append(session_id);
    let ghost ta = a@;
    v.push(a);
    let mut b = String::new();
    b.append("  ");
    push_decimal(&mut b, conversation as u64);
    b.append(" conversation record(s) · ");
    push_decimal(&mut b, points as u64);
    b.append(" branch point(s) (a record with 2+ conversation children; tool-result carriers, isMeta records, and compaction summaries never count)");
    let ghost tb = b@;
    v.push(b);
    if points == 0 {
        v.push("  no forks: every conversation record has at most one conversation child".to_string());
    }
    assert(v@.map_values(|s: String| s@) =~= branch_head(session_id@, conversation as int, points as int));
    v
}

/// The fork's parent location.
pub open spec fn location(parent: Option<(usize, Seq<char>)>) -> Seq<char> {
    match parent {
        Some(p) => "L"@ + dec(p.0 as int) + "  "@ + p.1,
        None => "parent uuid not in this file"@,
    }
}

/// The widest gap as printed.
pub open spec fn gap_text(w: Option<int>) -> Seq<char> {
    match w {
        Some(g) => spec_gap_label(if g >= 0 { g as nat } else { 0 }),
        None => "unknown (missing timestamps)"@,
    }
}

/// The lines of the `i`-th fork (0-based), given each child's timestamp as displayed.
pub open spec fn fork_block(i: int, p: PointView, session_id: Seq<char>, shown: Seq<Seq<char>>) -> Seq<Seq<char>> {
    seq![""@, "  #"@ + dec(i + 1) + "  uuid "@ + p.0 + "  "@ + location(p.1) + "  children "@ + dec(p.2.len() as int)
        + " · widest gap "@ + gap_text(p.4) + " · "@ + live_label(p.3)]
        + Seq::new(p.2.len(), |k: int| "      L"@ + dec(p.2[k].0 as int) + "  "@ + shown[k] + "  "@ + p.2[k].3 + "  "@
            + verdict_text(p.2[k].5))
        + (if p.2.len() > 0 { seq!["      ↳ csift show @"@ + session_id + " --line "@ + dec(p.2[p.2.len() - 1].0 as int)] } else { seq![] })
}

pub open spec fn verdict_text(v: Verdict) -> Seq<char> {
    match v {
        Verdict::Live => "live"@,
        Verdict::Rewound => "rewound"@,
        Verdict::Draft => "draft"@,
        Verdict::Abandoned => "abandoned"@,
        Verdict::PreCut => "pre-cut"@,
    }
}

/// See [`fork_block`]; `shown[k]` is child `k`'s timestamp as displayed.
pub fn fork_lines(i: usize, p: &BranchPoint, session_id: &str, shown: &Vec<String>) -> (out: Vec<String>)
    requires
        i < usize::MAX,
        shown@.len() == p.children@.len(),
    ensures
        out@.map_values(|s: String| s@) == fork_block(i as int, point_view(*p), session_id@, shown@.map_values(|s: String| s@)),
{
    let ghost pv = point_view(*p);
    let ghost sv = shown@.map_values(|s: String| s@);
    let mut v: Vec<String> = Vec::new();
    v.push(String::new());
    let mut h = String::new();
    h.append("  #");
    push_decimal(&mut h, (i + 1) as u64);
    h.append("  uuid ");
    h.append(p.uuid.as_str());
    h.append("  ");
    match &p.parent {
        Some((l, t)) => {
            h.append("L");
            push_decimal(&mut h, *l as u64);
            h.append("  ");
            h.append(t.as_str());
        },
        None => {
            h.append("parent uuid not in this file");
        },
    }
    h.append("  children ");
    push_decimal(&mut h, p.children.len() as u64);
    h.append(" · widest gap ");
    match p.widest_gap_secs {
        Some(g) => {
            let gs = gap_label(if g >= 0 { g as u64 } else { 0 });
            h.append(gs.as_str());
        },
        None => {
            h.append("unknown (missing timestamps)");
        },
    }
    h.append(" · ");
    let live = live_child_label(&p.live_child_lines);
    h.append(live.as_str());
    let ghost th = h@;
    v.push(h);
    proof {
        reveal_strlit("");
        assert(""@ =~= Seq::<char>::empty());
        assert(th =~= "  #"@ + dec(i + 1) + "  uuid "@ + pv.0 + "  "@ + location(pv.1) + "  children "@ + dec(pv.2.len() as int)
            + " · widest gap "@ + gap_text(pv.4) + " · "@ + live_label(pv.3));
        assert(v@.map_values(|s: String| s@) =~= seq![""@, th]);
    }
    let ghost head = v@.map_values(|s: String| s@);
    let ghost rows = Seq::new(pv.2.len(), |k: int| "      L"@ + dec(pv.2[k].0 as int) + "  "@ + sv[k] + "  "@ + pv.2[k].3 + "  "@
        + verdict_text(pv.2[k].5));
    let mut k: usize = 0;
    while k < p.children.len()
        invariant
            k <= p.children@.len(),
            shown@.len() == p.children@.len(),
            pv == point_view(*p),
            sv == shown@.map_values(|s: String| s@),
            rows == Seq::new(pv.2.len(), |k: int| "      L"@ + dec(pv.2[k].0 as int) + "  "@ + sv[k] + "  "@ + pv.2[k].3 + "  "@
                + verdict_text(pv.2[k].5)),
            v@.map_values(|s: String| s@) == head + rows.take(k as int),
        decreases p.children.len() - k,
    {
        let c = &p.children[k];
        let mut line = String::new();
        line.append("      L");
        push_decimal(&mut line, c.line as u64);
        line.append("  ");
        line.append(shown[k].as_str());
        line.append("  ");
        line.append(c.record_type.as_str());
        line.append("  ");
        let vl = c.verdict.label();
        line.append(vl);
        let ghost t = line@;
        let ghost before = v@.map_values(|s: String| s@);
        v.push(line);
        proof {
            assert(pv.2[k as int] == child_view(p.children@[k as int]));
            assert(t =~= rows[k as int]);
            assert(rows.take(k + 1) =~= rows.take(k as int).push(rows[k as int]));
            assert(v@.map_values(|s: String| s@) =~= before.push(t));
        }
        k = k + 1;
    }
    assert(rows.take(p.children@.len() as int) =~= rows);
    let ghost mid = v@.map_values(|s: String| s@);
    if p.children.len() > 0 {
        let last = p.children[p.children.len() - 1].line;
        let mut l = String::new();
        l.append("      ↳ csift show @");
        l.append(session_id);
        l.append(" --line ");
        push_decimal(&mut l, last as u64);
        let ghost tl = l@;
        v.push(l);
        proof {
            assert(pv.2[pv.2.len() - 1] == child_view(p.children@[p.children@.len() - 1]));
            assert(v@.map_values(|s: String| s@) =~= mid.push(tl));
        }
    }
    assert(v@.map_values(|s: String| s@) =~= fork_block(i as int, pv, session_id@, sv));
    v
}

/// The closing lines: the ranking note when some gap is known, and the malformed-line
/// note.
pub open spec fn branch_tail(any_gap: bool, skipped: int) -> Seq<Seq<char>> {
    (if any_gap {
        seq![""@, "  ranked by widest inter-child gap: a rewind or retry fork usually shows a wide gap, a parallel lane a near-zero one. csift reports fork FACTS - the live child is one of them, decided by the coding agent's own conversation chain, and beyond what that chain resolves csift does not guess."@]
    } else {
        seq![]
    }) + (if skipped > 0 { seq!["  ("@ + malformed_note(skipped) + ")"@] } else { seq![] })
}

pub open spec fn any_known_gap(ps: Seq<PointView>) -> bool {
    exists|k: int| 0 <= k < ps.len() && (#[trigger] ps[k]).4 is Some
}

pub fn branch_tail_lines(points: &Vec<BranchPoint>, skipped: usize) -> (out: Vec<String>)
    ensures
        out@.map_values(|s: String| s@) == branch_tail(any_known_gap(point_views(points@)), skipped as int),
{
    let mut any = false;
    let mut i: usize = 0;
    while i < points.len()
        invariant
            i <= points@.len(),
            any == exists|k: int| 0 <= k < i && (#[trigger] point_views(points@)[k]).4 is Some,
        decreases points.len() - i,
    {
        if points[i].widest_gap_secs.is_some() {
            any = true;
        }
        assert(point_views(points@)[i as int] == point_view(points@[i as int]));
        i = i + 1;
    }
    let mut v: Vec<String> = Vec::new();
    if any {
        v.push(String::new());
        v.push("  ranked by widest inter-child gap: a rewind or retry fork usually shows a wide gap, a parallel lane a near-zero one. csift reports fork FACTS - the live child is one of them, decided by the coding agent's own conversation chain, and beyond what that chain resolves csift does not guess.".to_string());
    }
    let ghost mid = v@.map_values(|s: String| s@);
    if skipped > 0 {
        let note = malformed_note_text(skipped);
        let mut l = String::new();
        l.append("  (");
        l.append(note.as_str());
        l.append(")");
        let ghost tl = l@;
        v.push(l);
        assert(v@.map_values(|s: String| s@) =~= mid.push(tl));
    }
    proof {
        reveal_strlit("");
        assert(""@ =~= Seq::<char>::empty());
    }
    assert(v@.map_values(|s: String| s@) =~= branch_tail(any_known_gap(point_views(points@)), skipped as int));
    v
}


/// The fork blocks of the first `n` points; `shown[i]` are point `i`'s children's
/// timestamps as displayed.
pub open spec fn forks_text(ps: Seq<PointView>, session_id: Seq<char>, shown: Seq<Seq<Seq<char>>>, n: int) -> Seq<Seq<char>>
    decreases n,
{
    if n <= 0 { seq![] } else { forks_text(ps, session_id, shown, n - 1) + fork_block(n - 1, ps[n - 1], session_id, shown[n - 1]) }
}

pub open spec fn nested_views(v: Seq<Vec<String>>) -> Seq<Seq<Seq<char>>> {
    v.map_values(|x: Vec<String>| x@.map_values(|s: String| s@))
}

/// The text report of `show --branch-points`: the head, each fork (in rank order) with
/// its children, and the closing notes.
pub fn branch_text_lines(session_id: &str, conversation: usize, points: &Vec<BranchPoint>, skipped: usize,
    shown: &Vec<Vec<String>>) -> (out: Vec<String>)
    requires
        shown@.len() == points@.len(),
        forall|i: int| 0 <= i < points@.len() ==> (#[trigger] shown@[i])@.len() == points@[i].children@.len(),
    ensures
        out@.map_values(|s: String| s@) == branch_head(session_id@, conversation as int, points@.len() as int)
            + forks_text(point_views(points@), session_id@, nested_views(shown@), points@.len() as int)
            + branch_tail(any_known_gap(point_views(points@)), skipped as int),
{
    let mut out = branch_head_lines(session_id, conversation, points.len());
    let ghost head = out@.map_values(|s: String| s@);
    assert(line_views(out@) =~= head);
    let ghost pv = point_views(points@);
    let ghost sv = nested_views(shown@);
    let mut i: usize = 0;
    while i < points.len()
        invariant
            i <= points@.len(),
            shown@.len() == points@.len(),
            forall|i: int| 0 <= i < points@.len() ==> (#[trigger] shown@[i])@.len() == points@[i].children@.len(),
            pv == point_views(points@),
            sv == nested_views(shown@),
            line_views(out@) == head + forks_text(pv, session_id@, sv, i as int),
        decreases points.len() - i,
    {
        let block = fork_lines(i, &points[i], session_id, &shown[i]);
        assert(pv[i as int] == point_view(points@[i as int]));
        assert(sv[i as int] == shown@[i as int]@.map_values(|s: String| s@));
        let ghost before = line_views(out@);
        let mut j: usize = 0;
        while j < block.len()
            invariant
                j <= block@.len(),
                line_views(out@) == before + line_views(block@.take(j as int)),
            decreases block.len() - j,
        {
            push_line(&mut out, block[j].clone());
            assert(line_views(block@.take(j + 1)) =~= line_views(block@.take(j as int)).push(block@[j as int]@));
            j = j + 1;
        }
        assert(block@.take(block@.len() as int) =~= block@);
        assert(line_views(out@) =~= out@.map_values(|s: String| s@));
        assert(line_views(block@) =~= block@.map_values(|s: String| s@));
        assert(line_views(out@) =~= head + forks_text(pv, session_id@, sv, i + 1));
        i = i + 1;
    }
    let tail = branch_tail_lines(points, skipped);
    let ghost before = line_views(out@);
    let mut k: usize = 0;
    while k < tail.len()
        invariant
            k <= tail@.len(),
            line_views(out@) == before + line_views(tail@.take(k as int)),
        decreases tail.len() - k,
    {
        push_line(&mut out, tail[k].clone());
        assert(line_views(tail@.take(k + 1)) =~= line_views(tail@.take(k as int)).push(tail@[k as int]@));
        k = k + 1;
    }
    assert(tail@.take(tail@.len() as int) =~= tail@);
    assert(line_views(out@) =~= out@.map_values(|s: String| s@));
    assert(line_views(tail@) =~= tail@.map_values(|s: String| s@));
    out
}

/// The text report with each child's timestamp rendered in the local zone (see
/// [`crate::timefmt::format_timestamp`]).
pub fn branch_text(session_id: &str, conversation: usize, points: &Vec<BranchPoint>, skipped: usize) -> (out: Vec<String>)
    ensures
        exists|shown: Seq<Seq<Seq<char>>>| shown.len() == points@.len()
            && out@.map_values(|s: String| s@) == branch_head(session_id@, conversation as int, points@.len() as int)
                + #[trigger] forks_text(point_views(points@), session_id@, shown, points@.len() as int)
                + branch_tail(any_known_gap(point_views(points@)), skipped as int),
{
    let mut shown: Vec<Vec<String>> = Vec::new();
    let mut i: usize = 0;
    while i < points.len()
        invariant
            i <= points@.len(),
            shown@.len() == i,
            forall|j: int| 0 <= j < i ==> (#[trigger] shown@[j])@.len() == points@[j].children@.len(),
        decreases points.len() - i,
    {
        let cs = &points[i].children;
        let mut v: Vec<String> = Vec::new();
        let mut k: usize = 0;
        while k < cs.len()
            invariant
                k <= cs@.len(),
                v@.len() == k,
            decreases cs.len() - k,
        {
            let st = match &cs[k].ts_utc {
                Some(t) => crate::timefmt::format_timestamp(Some(t.as_str())),
                None => crate::timefmt::format_timestamp(None),
            };
            v.push(st);
            k = k + 1;
        }
        shown.push(v);
        i = i + 1;
    }
    branch_text_lines(session_id, conversation, points, skipped, &shown)
}

} // verus!
