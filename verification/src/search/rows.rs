//! The file-order row space: the searchable records a scan kept and the chain-only spine
//! rows of the lines it dropped, merged back into ONE ascending-by-line list. Every chain
//! answer and turn boundary is addressed by an index into that list, so the merges owe
//! the rest of the tree ORDER.

use vstd::prelude::*;
use crate::model::Record;

verus! {

/// A retained record with its keyword-prefilter verdict and its physical address.
#[derive(Debug)]
pub struct Kept {
    pub rec: Record,
    /// False when the raw line provably lacks the required literal (never a regex hit,
    /// but still a member of its turn's round-trip).
    pub can_hit: bool,
    /// 1-based physical jsonl line; `0` for a merged elicitation-sidecar record.
    pub line_no: usize,
    /// True when the record came from the elicitation sidecar, not the jsonl.
    pub from_sidecar: bool,
}

/// One row of the merged file-order list.
#[derive(Debug, Clone, Copy)]
pub enum Row<'a> {
    /// A searchable record: the only kind that classifies, matches, or emits.
    Rec(&'a Kept),
    /// A chain-only structural row (line number + the lifted record).
    Spine(&'a (usize, Record)),
}

impl<'a> Row<'a> {
    /// The searchable record, or `None` for a spine row.
    pub fn kept(self) -> (k: Option<&'a Kept>)
        ensures
            match self {
                Row::Rec(r) => k == Some(r),
                Row::Spine(_) => k is None,
            },
    {
        match self {
            Row::Rec(k) => Some(k),
            Row::Spine(_) => None,
        }
    }

    /// The underlying record.
    pub fn rec(self) -> (r: &'a Record)
        ensures
            match self {
                Row::Rec(k) => *r == k.rec,
                Row::Spine(s) => *r == s.1,
            },
    {
        match self {
            Row::Rec(k) => &k.rec,
            Row::Spine(s) => &s.1,
        }
    }

    /// The 1-based physical jsonl line (`0` for a sidecar record).
    pub fn line_no(self) -> (l: usize)
        ensures
            l == spec_row_line(self),
    {
        match self {
            Row::Rec(k) => k.line_no,
            Row::Spine(s) => s.0,
        }
    }
}

pub open spec fn spec_row_line(r: Row) -> usize {
    match r {
        Row::Rec(k) => k.line_no,
        Row::Spine(s) => s.0,
    }
}

/// The stable merge of two line-keyed streams: the smaller line first, the first stream
/// first on a tie.
pub open spec fn merge_by_line<R>(a: Seq<(usize, R)>, b: Seq<(usize, R)>) -> Seq<(usize, R)>
    decreases a.len() + b.len(),
{
    if a.len() == 0 {
        b
    } else if b.len() == 0 {
        a
    } else if a[0].0 <= b[0].0 {
        seq![a[0]] + merge_by_line(a.drop_first(), b)
    } else {
        seq![b[0]] + merge_by_line(a, b.drop_first())
    }
}

/// Ascending by line.
pub open spec fn ascending<R>(s: Seq<(usize, R)>) -> bool {
    forall|i: int, j: int| 0 <= i <= j < s.len() ==> s[i].0 <= s[j].0
}

fn stack_of<R>(v: Vec<(usize, R)>) -> (st: Vec<(usize, R)>)
    ensures
        st@.reverse() == v@,
{
    let mut v = v;
    let ghost orig = v@;
    let mut st: Vec<(usize, R)> = Vec::new();
    while v.len() > 0
        invariant
            orig == v@ + st@.reverse(),
        decreases v.len(),
    {
        let ghost before_v = v@;
        let ghost before_st = st@;
        let x = v.pop().unwrap();
        st.push(x);
        assert(st@.reverse() =~= seq![x] + before_st.reverse());
        assert(before_v =~= v@.push(x));
        assert(orig =~= v@ + st@.reverse());
    }
    assert(orig =~= st@.reverse());
    st
}

/// Merge two ascending-by-line spine streams into one: the scan's own, and the rows the
/// demotion produced from records the gates left unsearchable.
pub fn merge_spine<R>(scanned: Vec<(usize, R)>, demoted: Vec<(usize, R)>) -> (out: Vec<(usize, R)>)
    ensures
        out@ == merge_by_line(scanned@, demoted@),
{
    let ghost a0 = scanned@;
    let ghost b0 = demoted@;
    let mut sa = stack_of(scanned);
    let mut sb = stack_of(demoted);
    let mut out: Vec<(usize, R)> = Vec::new();
    while sa.len() > 0 || sb.len() > 0
        invariant
            out@ + merge_by_line(sa@.reverse(), sb@.reverse()) == merge_by_line(a0, b0),
        decreases sa.len() + sb.len(),
    {
        let take_a = if sa.len() > 0 && sb.len() > 0 {
            sa[sa.len() - 1].0 <= sb[sb.len() - 1].0
        } else {
            sa.len() > 0
        };
        let ghost ra = sa@.reverse();
        let ghost rb = sb@.reverse();
        let ghost before = out@;
        if take_a {
            let x = sa.pop().unwrap();
            assert(sa@.reverse() =~= ra.drop_first());
            assert(ra[0] == x);
            out.push(x);
            assert(merge_by_line(ra, rb) =~= seq![x] + merge_by_line(sa@.reverse(), rb));
        } else {
            let x = sb.pop().unwrap();
            assert(sb@.reverse() =~= rb.drop_first());
            assert(rb[0] == x);
            out.push(x);
            assert(merge_by_line(ra, rb) =~= seq![x] + merge_by_line(ra, sb@.reverse()));
        }
        assert(out@ =~= before.push(out@.last()));
    }
    assert(sa@.reverse() =~= Seq::<(usize, R)>::empty());
    assert(out@ =~= merge_by_line(a0, b0));
    out
}

/// Where a merged row comes from: `(true, i)` = `records[i]`, `(false, j)` = `spine[j]`.
pub open spec fn row_plan(rec_lines: Seq<usize>, spine_lines: Seq<usize>, a: int, b: int) -> Seq<(bool, int)>
    decreases rec_lines.len() - a + spine_lines.len() - b,
{
    if 0 <= a < rec_lines.len() && 0 <= b < spine_lines.len() && rec_lines[a] > 0 {
        if rec_lines[a] <= spine_lines[b] {
            seq![(true, a)] + row_plan(rec_lines, spine_lines, a + 1, b)
        } else {
            seq![(false, b)] + row_plan(rec_lines, spine_lines, a, b + 1)
        }
    } else {
        rest_spine(spine_lines.len(), b) + rest_records(rec_lines.len(), a)
    }
}

/// `(false, b), (false, b + 1), …` up to the end of the spine.
pub open spec fn rest_spine(n: nat, b: int) -> Seq<(bool, int)>
    decreases n - b,
{
    if 0 <= b < n { seq![(false, b)] + rest_spine(n, b + 1) } else { Seq::empty() }
}

/// `(true, a), (true, a + 1), …` up to the end of the records.
pub open spec fn rest_records(n: nat, a: int) -> Seq<(bool, int)>
    decreases n - a,
{
    if 0 <= a < n { seq![(true, a)] + rest_records(n, a + 1) } else { Seq::empty() }
}

pub open spec fn kept_lines(records: Seq<Kept>) -> Seq<usize> {
    records.map_values(|k: Kept| k.line_no)
}

pub open spec fn spine_lines<R>(spine: Seq<(usize, R)>) -> Seq<usize> {
    spine.map_values(|s: (usize, R)| s.0)
}

/// The merged row at position `k` is the planned one.
pub open spec fn row_matches_plan<'a>(r: Row<'a>, p: (bool, int), records: Seq<Kept>, spine: Seq<(usize, Record)>) -> bool {
    match r {
        Row::Rec(k) => p.0 && 0 <= p.1 < records.len() && *k == records[p.1],
        Row::Spine(s) => !p.0 && 0 <= p.1 < spine.len() && *s == spine[p.1],
    }
}

/// Merge the searchable records and the spine rows of one transcript into ONE file-order
/// list. Both inputs are ascending by line; a sidecar record (line 0) never wins the
/// compare, so it lands after every scanned row.
pub fn merge_rows<'a>(records: &'a [Kept], spine: &'a [(usize, Record)]) -> (out: Vec<Row<'a>>)
    ensures
        ({
            let plan = row_plan(kept_lines(records@), spine_lines(spine@), 0, 0);
            &&& out@.len() == plan.len()
            &&& forall|k: int| 0 <= k < plan.len() ==> row_matches_plan(#[trigger] out@[k], plan[k], records@, spine@)
        }),
{
    let ghost rl = kept_lines(records@);
    let ghost sl = spine_lines(spine@);
    let ghost plan = row_plan(rl, sl, 0, 0);
    let ghost mut src: Seq<(bool, int)> = Seq::empty();
    let mut out: Vec<Row<'a>> = Vec::new();
    let mut a: usize = 0;
    let mut b: usize = 0;
    let mut done = false;
    while !done && a < records.len() && b < spine.len()
        invariant
            a <= records.len(),
            b <= spine.len(),
            rl == kept_lines(records@),
            sl == spine_lines(spine@),
            rl.len() == records@.len(),
            sl.len() == spine@.len(),
            plan == row_plan(rl, sl, 0, 0),
            src.len() == out@.len(),
            !done ==> plan == src + row_plan(rl, sl, a as int, b as int),
            done ==> plan == src + rest_spine(sl.len(), b as int) + rest_records(rl.len(), a as int),
            forall|k: int| 0 <= k < out@.len() ==> row_matches_plan(#[trigger] out@[k], src[k], records@, spine@),
        decreases records.len() - a + spine.len() - b + (if done { 0int } else { 1int }),
    {
        assert(rl[a as int] == records@[a as int].line_no);
        assert(sl[b as int] == spine@[b as int].0);
        if records[a].line_no > 0 && records[a].line_no <= spine[b].0 {
            out.push(Row::Rec(&records[a]));
            proof {
                assert(row_plan(rl, sl, a as int, b as int) == seq![(true, a as int)] + row_plan(rl, sl, a + 1, b as int));
                src = src.push((true, a as int));
                assert(plan =~= src + row_plan(rl, sl, a + 1, b as int));
            }
            a += 1;
        } else if records[a].line_no > 0 {
            out.push(Row::Spine(&spine[b]));
            proof {
                assert(row_plan(rl, sl, a as int, b as int) == seq![(false, b as int)] + row_plan(rl, sl, a as int, b + 1));
                src = src.push((false, b as int));
                assert(plan =~= src + row_plan(rl, sl, a as int, b + 1));
            }
            b += 1;
        } else {
            done = true;
        }
    }
    if !done {
        assert(row_plan(rl, sl, a as int, b as int) == rest_spine(sl.len(), b as int) + rest_records(rl.len(), a as int));
    }
    while b < spine.len()
        invariant
            a <= records.len(),
            b <= spine.len(),
            rl.len() == records@.len(),
            sl.len() == spine@.len(),
            src.len() == out@.len(),
            plan == src + rest_spine(sl.len(), b as int) + rest_records(rl.len(), a as int),
            forall|k: int| 0 <= k < out@.len() ==> row_matches_plan(#[trigger] out@[k], src[k], records@, spine@),
        decreases spine.len() - b,
    {
        out.push(Row::Spine(&spine[b]));
        proof {
            assert(rest_spine(sl.len(), b as int) == seq![(false, b as int)] + rest_spine(sl.len(), b + 1));
            src = src.push((false, b as int));
            assert(plan =~= src + rest_spine(sl.len(), b + 1) + rest_records(rl.len(), a as int));
        }
        b += 1;
    }
    assert(rest_spine(sl.len(), b as int) =~= Seq::<(bool, int)>::empty());
    assert(plan =~= src + rest_records(rl.len(), a as int));
    while a < records.len()
        invariant
            a <= records.len(),
            rl.len() == records@.len(),
            src.len() == out@.len(),
            plan == src + rest_records(rl.len(), a as int),
            forall|k: int| 0 <= k < out@.len() ==> row_matches_plan(#[trigger] out@[k], src[k], records@, spine@),
        decreases records.len() - a,
    {
        out.push(Row::Rec(&records[a]));
        proof {
            assert(rest_records(rl.len(), a as int) == seq![(true, a as int)] + rest_records(rl.len(), a + 1));
            src = src.push((true, a as int));
            assert(plan =~= src + rest_records(rl.len(), a + 1));
        }
        a += 1;
    }
    assert(rest_records(rl.len(), a as int) =~= Seq::<(bool, int)>::empty());
    assert(plan =~= src);
    out
}

} // verus!
