//! The windowed counts of one file: records by kind, compactions, the first and last
//! timestamp, the tool and narration censuses, unknown thinking tags, and live turns.

use vstd::prelude::*;
use crate::chars::str_eq;
use crate::model::{Block, Record, opt_view, spec_blocks};
use crate::search::hits::record_blocks;
use crate::stats::lines::occurrences;
use crate::stats::tally::{bump_saturating, count_of, has_key, key_sorted, sat_usize};
use crate::subagent::{lex_le, str_le};
use crate::show::plan::{lemma_lex_antisym, lemma_lex_total, lemma_lex_trans};

verus! {

/// The records of `rows[..n]` that `adm` admits, in order.
pub open spec fn admitted(rows: Seq<(Record, bool)>, adm: Seq<bool>, n: int) -> Seq<Record>
    decreases n,
{
    if n <= 0 {
        seq![]
    } else {
        let p = admitted(rows, adm, n - 1);
        if adm[n - 1] { p.push(rows[n - 1].0) } else { p }
    }
}

pub open spec fn derefs(v: Seq<&Record>) -> Seq<Record> {
    v.map_values(|r: &Record| *r)
}

/// The admitted records, in row order.
pub fn admitted_records<'a>(rows: &Vec<(&'a Record, bool)>, adm: &Vec<bool>) -> (out: Vec<&'a Record>)
    requires
        adm@.len() == rows@.len(),
    ensures
        derefs(out@) == admitted(rows@.map_values(|p: (&Record, bool)| (*p.0, p.1)), adm@, rows@.len() as int),
{
    let ghost rv = rows@.map_values(|p: (&Record, bool)| (*p.0, p.1));
    let mut out: Vec<&'a Record> = Vec::new();
    let mut i: usize = 0;
    while i < rows.len()
        invariant
            i <= rows@.len(),
            adm@.len() == rows@.len(),
            rv == rows@.map_values(|p: (&Record, bool)| (*p.0, p.1)),
            derefs(out@) == admitted(rv, adm@, i as int),
        decreases rows.len() - i,
    {
        if adm[i] {
            out.push(rows[i].0);
        }
        assert(derefs(out@) =~= admitted(rv, adm@, i + 1));
        i = i + 1;
    }
    out
}

/// How many records have top-level `type` `t`.
pub open spec fn type_count(a: Seq<Record>, t: Seq<char>) -> int
    decreases a.len(),
{
    if a.len() == 0 {
        0
    } else {
        type_count(a.drop_last(), t) + (if opt_view(a.last().record_type) == Some(t) { 1int } else { 0int })
    }
}

/// How many records are compaction summaries.
pub open spec fn compaction_count(a: Seq<Record>) -> int
    decreases a.len(),
{
    if a.len() == 0 {
        0
    } else {
        compaction_count(a.drop_last()) + (if a.last().is_compact_summary == Some(true) { 1int } else { 0int })
    }
}

/// Records by kind: (`user`, `assistant`, compaction summaries).
pub fn record_counts(a: &Vec<&Record>) -> (r: (usize, usize, usize))
    ensures
        r.0 == type_count(derefs(a@), "user"@),
        r.1 == type_count(derefs(a@), "assistant"@),
        r.2 == compaction_count(derefs(a@)),
{
    let mut users: usize = 0;
    let mut agents: usize = 0;
    let mut compactions: usize = 0;
    let mut i: usize = 0;
    while i < a.len()
        invariant
            i <= a@.len(),
            users <= i && agents <= i && compactions <= i,
            users == type_count(derefs(a@).subrange(0, i as int), "user"@),
            agents == type_count(derefs(a@).subrange(0, i as int), "assistant"@),
            compactions == compaction_count(derefs(a@).subrange(0, i as int)),
        decreases a.len() - i,
    {
        let rec = a[i];
        assert(derefs(a@).subrange(0, i + 1).drop_last() =~= derefs(a@).subrange(0, i as int));
        proof {
            reveal_strlit("user");
            reveal_strlit("assistant");
            assert("user"@.len() != "assistant"@.len());
        }
        match &rec.record_type {
            Some(t) => {
                if str_eq(t.as_str(), "user") {
                    users = users + 1;
                } else if str_eq(t.as_str(), "assistant") {
                    agents = agents + 1;
                }
            },
            None => {},
        }
        if rec.is_compact_summary == Some(true) {
            compactions = compactions + 1;
        }
        i = i + 1;
    }
    assert(derefs(a@).subrange(0, a@.len() as int) =~= derefs(a@));
    (users, agents, compactions)
}

/// Strictly before in text order.
pub open spec fn lex_lt(a: Seq<char>, b: Seq<char>) -> bool {
    lex_le(a, b) && a != b
}

/// The earliest timestamp (text order) among the records; ties keep the first seen.
pub open spec fn first_ts(a: Seq<Record>) -> Option<Seq<char>>
    decreases a.len(),
{
    if a.len() == 0 {
        None
    } else {
        let p = first_ts(a.drop_last());
        match a.last().timestamp {
            None => p,
            Some(t) => match p {
                Some(f) => if lex_lt(t@, f) { Some(t@) } else { Some(f) },
                None => Some(t@),
            },
        }
    }
}

/// The latest timestamp (text order) among the records.
pub open spec fn last_ts(a: Seq<Record>) -> Option<Seq<char>>
    decreases a.len(),
{
    if a.len() == 0 {
        None
    } else {
        let p = last_ts(a.drop_last());
        match a.last().timestamp {
            None => p,
            Some(t) => match p {
                Some(l) => if lex_lt(l, t@) { Some(t@) } else { Some(l) },
                None => Some(t@),
            },
        }
    }
}

/// The first and last timestamps of the records.
pub fn span(a: &Vec<&Record>) -> (r: (Option<String>, Option<String>))
    ensures
        opt_view(r.0) == first_ts(derefs(a@)),
        opt_view(r.1) == last_ts(derefs(a@)),
{
    let mut first: Option<String> = None;
    let mut last: Option<String> = None;
    let mut i: usize = 0;
    while i < a.len()
        invariant
            i <= a@.len(),
            opt_view(first) == first_ts(derefs(a@).subrange(0, i as int)),
            opt_view(last) == last_ts(derefs(a@).subrange(0, i as int)),
        decreases a.len() - i,
    {
        let rec = a[i];
        assert(derefs(a@).subrange(0, i + 1).drop_last() =~= derefs(a@).subrange(0, i as int));
        if let Some(ts) = &rec.timestamp {
            let earlier = match &first {
                Some(f) => str_le(ts.as_str(), f.as_str()) && !str_eq(ts.as_str(), f.as_str()),
                None => true,
            };
            if earlier {
                first = Some(ts.clone());
            }
            let later = match &last {
                Some(l) => str_le(l.as_str(), ts.as_str()) && !str_eq(l.as_str(), ts.as_str()),
                None => true,
            };
            if later {
                last = Some(ts.clone());
            }
        }
        i = i + 1;
    }
    assert(derefs(a@).subrange(0, a@.len() as int) =~= derefs(a@));
    (first, last)
}

/// The first timestamp is one of the records' timestamps and none is earlier; the last
/// is one of them and none is later.
pub proof fn lemma_span_bounds(a: Seq<Record>)
    ensures
        first_ts(a) is None <==> (forall|i: int| 0 <= i < a.len() ==> (#[trigger] a[i]).timestamp is None),
        last_ts(a) is None <==> (forall|i: int| 0 <= i < a.len() ==> (#[trigger] a[i]).timestamp is None),
        first_ts(a) matches Some(f) ==> (exists|i: int| 0 <= i < a.len() && opt_view((#[trigger] a[i]).timestamp) == Some(f)),
        last_ts(a) matches Some(l) ==> (exists|i: int| 0 <= i < a.len() && opt_view((#[trigger] a[i]).timestamp) == Some(l)),
        first_ts(a) matches Some(f) ==> forall|i: int| 0 <= i < a.len() && (#[trigger] a[i]).timestamp is Some
            ==> lex_le(f, a[i].timestamp->0@),
        last_ts(a) matches Some(l) ==> forall|i: int| 0 <= i < a.len() && (#[trigger] a[i]).timestamp is Some
            ==> lex_le(a[i].timestamp->0@, l),
    decreases a.len(),
{
    if a.len() > 0 {
        let p = a.drop_last();
        lemma_span_bounds(p);
        let n = a.len() - 1;
        assert forall|i: int| 0 <= i < p.len() implies #[trigger] p[i] == a[i] by {}
        assert((forall|i: int| 0 <= i < a.len() ==> (#[trigger] a[i]).timestamp is None) <==>
            ((forall|i: int| 0 <= i < p.len() ==> (#[trigger] p[i]).timestamp is None) && a[n].timestamp is None)) by {
            if (forall|i: int| 0 <= i < p.len() ==> (#[trigger] p[i]).timestamp is None) && a[n].timestamp is None {
                assert forall|i: int| 0 <= i < a.len() implies (#[trigger] a[i]).timestamp is None by {
                    if i < n { assert(a[i] == p[i]); }
                }
            }
            if forall|i: int| 0 <= i < a.len() ==> (#[trigger] a[i]).timestamp is None {
                assert forall|i: int| 0 <= i < p.len() implies (#[trigger] p[i]).timestamp is None by {
                    assert(a[i] == p[i]);
                }
            }
        }
        if let Some(t) = a.last().timestamp {
            lemma_lex_total(t@, t@);
            if let Some(f) = first_ts(p) {
                lemma_lex_total(t@, f);
                let i0 = choose|i: int| 0 <= i < p.len() && opt_view((#[trigger] p[i]).timestamp) == Some(f);
                assert(a[i0] == p[i0]);
            }
            if let Some(l) = last_ts(p) {
                lemma_lex_total(l, t@);
                let i0 = choose|i: int| 0 <= i < p.len() && opt_view((#[trigger] p[i]).timestamp) == Some(l);
                assert(a[i0] == p[i0]);
            }
            assert(opt_view(a[n].timestamp) == Some(t@));
            if let Some(f) = first_ts(a) {
                assert forall|i: int| 0 <= i < a.len() && (#[trigger] a[i]).timestamp is Some
                    implies lex_le(f, a[i].timestamp->0@) by {
                    if i < n {
                        assert(p[i] == a[i]);
                        if let Some(f0) = first_ts(p) {
                            if f != f0 {
                                lemma_lex_trans(t@, f0, a[i].timestamp->0@);
                            }
                        }
                    }
                }
            }
            if let Some(l) = last_ts(a) {
                assert forall|i: int| 0 <= i < a.len() && (#[trigger] a[i]).timestamp is Some
                    implies lex_le(a[i].timestamp->0@, l) by {
                    if i < n {
                        assert(p[i] == a[i]);
                        if let Some(l0) = last_ts(p) {
                            if l != l0 {
                                lemma_lex_trans(a[i].timestamp->0@, l0, t@);
                            }
                        }
                    }
                }
            }
        } else {
            if let Some(f) = first_ts(p) {
                let i0 = choose|i: int| 0 <= i < p.len() && opt_view((#[trigger] p[i]).timestamp) == Some(f);
                assert(a[i0] == p[i0]);
                assert forall|i: int| 0 <= i < a.len() && (#[trigger] a[i]).timestamp is Some
                    implies lex_le(f, a[i].timestamp->0@) by {
                    assert(p[i] == a[i]);
                }
            }
            if let Some(l) = last_ts(p) {
                let i0 = choose|i: int| 0 <= i < p.len() && opt_view((#[trigger] p[i]).timestamp) == Some(l);
                assert(a[i0] == p[i0]);
                assert forall|i: int| 0 <= i < a.len() && (#[trigger] a[i]).timestamp is Some
                    implies lex_le(a[i].timestamp->0@, l) by {
                    assert(p[i] == a[i]);
                }
            }
        }
    }
}

/// The key a `tool_use` block is censused under: its name, or `(unnamed)`.
pub open spec fn tool_key(b: Block) -> Option<Seq<char>> {
    match b {
        Block::ToolUse { name, .. } => Some(match name {
            Some(n) => n@,
            None => "(unnamed)"@,
        }),
        _ => None,
    }
}

/// The tool keys of a block list, in order.
pub open spec fn block_tools(bs: Seq<Block>) -> Seq<Seq<char>>
    decreases bs.len(),
{
    if bs.len() == 0 {
        seq![]
    } else {
        block_tools(bs.drop_last()) + match tool_key(bs.last()) {
            Some(k) => seq![k],
            None => seq![],
        }
    }
}

/// Every tool call of the records, by name, in order.
pub open spec fn tool_keys(a: Seq<Record>) -> Seq<Seq<char>>
    decreases a.len(),
{
    if a.len() == 0 {
        seq![]
    } else {
        tool_keys(a.drop_last()) + match spec_blocks(a.last()) {
            Some(bs) => block_tools(bs),
            None => seq![],
        }
    }
}

/// The model key a record's counts go under: its message's model, or `(unknown)`.
pub open spec fn model_key(r: Record) -> Seq<char> {
    match r.message {
        Some(m) => match m.model {
            Some(s) => s@,
            None => "(unknown)"@,
        },
        None => "(unknown)"@,
    }
}

/// The tag that marks a narration thinking block.
pub open spec fn narration_tag() -> Seq<char> {
    "narration"@
}

/// How a thinking block's signature tag counts: narration, plain thinking (or no tag),
/// or a tag value neither names.
pub open spec fn is_narration(b: Block) -> bool {
    b matches Block::Thinking { tag: Some(t), .. } && t@ == narration_tag()
}

pub open spec fn is_unknown_tag(b: Block) -> bool {
    b matches Block::Thinking { tag: Some(t), .. } && t@ != narration_tag() && t@ != "thinking"@
}

/// Count the blocks that satisfy `p`.
pub open spec fn block_count(bs: Seq<Block>, p: spec_fn(Block) -> bool) -> int
    decreases bs.len(),
{
    if bs.len() == 0 {
        0
    } else {
        block_count(bs.drop_last(), p) + (if p(bs.last()) { 1int } else { 0int })
    }
}

/// One model key per narration block of the records, in order.
pub open spec fn narration_keys(a: Seq<Record>) -> Seq<Seq<char>>
    decreases a.len(),
{
    if a.len() == 0 {
        seq![]
    } else {
        narration_keys(a.drop_last()) + match spec_blocks(a.last()) {
            Some(bs) => Seq::new(block_count(bs, |b: Block| is_narration(b)) as nat, |i: int| model_key(a.last())),
            None => seq![],
        }
    }
}

/// How many thinking blocks carry a tag that is neither thinking nor narration.
pub open spec fn unknown_tag_count(a: Seq<Record>) -> int
    decreases a.len(),
{
    if a.len() == 0 {
        0
    } else {
        unknown_tag_count(a.drop_last()) + match spec_blocks(a.last()) {
            Some(bs) => block_count(bs, |b: Block| is_unknown_tag(b)),
            None => 0,
        }
    }
}

/// `min(a, usize::MAX)`.
pub open spec fn cap_usize(a: int) -> int {
    if a > usize::MAX { usize::MAX as int } else { a }
}

/// The tool census, the narration census (by model) and the unknown-tag count of the
/// records; each count is held at `usize::MAX`.
pub fn block_censuses(a: &Vec<&Record>) -> (r: (Vec<(String, usize)>, Vec<(String, usize)>, usize))
    ensures
        key_sorted(r.0@),
        forall|k: Seq<char>| #[trigger] has_key(r.0@, k) <==> tool_keys(derefs(a@)).contains(k),
        forall|k: Seq<char>| #[trigger] count_of(r.0@, k) == cap_usize(occurrences(tool_keys(derefs(a@)), k)),
        key_sorted(r.1@),
        forall|k: Seq<char>| #[trigger] has_key(r.1@, k) <==> narration_keys(derefs(a@)).contains(k),
        forall|k: Seq<char>| #[trigger] count_of(r.1@, k) == cap_usize(occurrences(narration_keys(derefs(a@)), k)),
        r.2 == cap_usize(unknown_tag_count(derefs(a@))),
{
    let mut tools: Vec<(String, usize)> = Vec::new();
    let mut narration: Vec<(String, usize)> = Vec::new();
    let mut unknown: usize = 0;
    let ghost all = derefs(a@);
    let mut i: usize = 0;
    proof {
        reveal_strlit("(unnamed)");
        reveal_strlit("(unknown)");
        reveal_strlit("narration");
        reveal_strlit("thinking");
    }
    while i < a.len()
        invariant
            i <= a@.len(),
            all == derefs(a@),
            key_sorted(tools@),
            forall|k: Seq<char>| #[trigger] has_key(tools@, k) <==> tool_keys(all.subrange(0, i as int)).contains(k),
            forall|k: Seq<char>| #[trigger] count_of(tools@, k) == cap_usize(occurrences(tool_keys(all.subrange(0, i as int)), k)),
            key_sorted(narration@),
            forall|k: Seq<char>| #[trigger] has_key(narration@, k) <==> narration_keys(all.subrange(0, i as int)).contains(k),
            forall|k: Seq<char>| #[trigger] count_of(narration@, k) == cap_usize(occurrences(narration_keys(all.subrange(0, i as int)), k)),
            unknown == cap_usize(unknown_tag_count(all.subrange(0, i as int))),
        decreases a.len() - i,
    {
        let rec = a[i];
        let ghost pre = all.subrange(0, i as int);
        let ghost next = all.subrange(0, i + 1);
        assert(next.drop_last() =~= pre);
        assert(next.last() == *rec);
        let model: &str = match &rec.message {
            Some(m) => match &m.model {
                Some(s) => s.as_str(),
                None => "(unknown)",
            },
            None => "(unknown)",
        };
        assert(model@ == model_key(*rec));
        if let Some(bs) = record_blocks(rec) {
            let ghost t0 = tool_keys(pre);
            let ghost n0 = narration_keys(pre);
            let ghost u0 = unknown_tag_count(pre);
            let mut j: usize = 0;
            while j < bs.len()
                invariant
                    j <= bs@.len(),
                    model@ == model_key(*rec),
                    key_sorted(tools@),
                    forall|k: Seq<char>| #[trigger] has_key(tools@, k) <==> (t0 + block_tools(bs@.subrange(0, j as int))).contains(k),
                    forall|k: Seq<char>| #[trigger] count_of(tools@, k) == cap_usize(occurrences(t0 + block_tools(bs@.subrange(0, j as int)), k)),
                    key_sorted(narration@),
                    forall|k: Seq<char>| #[trigger] has_key(narration@, k) <==>
                        (n0 + Seq::new(block_count(bs@.subrange(0, j as int), |b: Block| is_narration(b)) as nat, |q: int| model@)).contains(k),
                    forall|k: Seq<char>| #[trigger] count_of(narration@, k) ==
                        cap_usize(occurrences(n0 + Seq::new(block_count(bs@.subrange(0, j as int), |b: Block| is_narration(b)) as nat, |q: int| model@), k)),
                    unknown == cap_usize(u0 + block_count(bs@.subrange(0, j as int), |b: Block| is_unknown_tag(b))),
                    block_count(bs@.subrange(0, j as int), |b: Block| is_narration(b)) >= 0,
                    block_count(bs@.subrange(0, j as int), |b: Block| is_unknown_tag(b)) >= 0,
                decreases bs.len() - j,
            {
                let ghost bpre = bs@.subrange(0, j as int);
                let ghost bnext = bs@.subrange(0, j + 1);
                assert(bnext.drop_last() =~= bpre);
                let ghost nt = block_count(bpre, |b: Block| is_narration(b));
                let ghost ot = t0 + block_tools(bpre);
                let ghost on = n0 + Seq::new(nt as nat, |q: int| model@);
                match &bs[j] {
                    Block::ToolUse { name, .. } => {
                        let key: &str = match name {
                            Some(s) => s.as_str(),
                            None => "(unnamed)",
                        };
                        bump_saturating(&mut tools, key, 1);
                        proof {
                            let nt2 = t0 + block_tools(bnext);
                            assert(nt2 =~= ot.push(key@));
                            assert(nt2.drop_last() =~= ot);
                            lemma_contains_push(ot, key@);
                            assert(Seq::new(block_count(bnext, |b: Block| is_narration(b)) as nat, |q: int| model@)
                                =~= Seq::new(nt as nat, |q: int| model@));
                        }
                    },
                    Block::Thinking { tag, .. } => {
                        match tag {
                            Some(t) => {
                                if str_eq(t.as_str(), "narration") {
                                    bump_saturating(&mut narration, model, 1);
                                    proof {
                                        let nn = n0 + Seq::new((nt + 1) as nat, |q: int| model@);
                                        assert(nn =~= on.push(model@));
                                        assert(nn.drop_last() =~= on);
                                        lemma_contains_push(on, model@);
                                    }
                                } else if !str_eq(t.as_str(), "thinking") {
                                    unknown = unknown.saturating_add(1);
                                }
                            },
                            None => {},
                        }
                        proof {
                            assert(t0 + block_tools(bnext) =~= ot);
                        }
                    },
                    _ => {
                        proof {
                            assert(t0 + block_tools(bnext) =~= ot);
                        }
                    },
                }
                j = j + 1;
            }
            proof {
                assert(bs@.subrange(0, bs@.len() as int) =~= bs@);
                assert(tool_keys(next) =~= t0 + block_tools(bs@));
            }
        } else {
            proof {
                assert(tool_keys(next) =~= tool_keys(pre));
                assert(narration_keys(next) =~= narration_keys(pre));
            }
        }
        i = i + 1;
    }
    assert(all.subrange(0, a@.len() as int) =~= all);
    (tools, narration, unknown)
}

/// What pushing `x` does to membership and to counts.
pub proof fn lemma_contains_push(s: Seq<Seq<char>>, x: Seq<char>)
    ensures
        forall|k: Seq<char>| #[trigger] s.push(x).contains(k) <==> (s.contains(k) || k == x),
        forall|k: Seq<char>| #[trigger] occurrences(s.push(x), k) == occurrences(s, k) + (if k == x { 1int } else { 0int }),
{
    assert forall|k: Seq<char>| #[trigger] s.push(x).contains(k) <==> (s.contains(k) || k == x) by {
        if s.push(x).contains(k) && k != x {
            let j = choose|j: int| 0 <= j < s.push(x).len() && s.push(x)[j] == k;
            assert(s[j] == k);
        }
        if s.contains(k) {
            let j = choose|j: int| 0 <= j < s.len() && s[j] == k;
            assert(s.push(x)[j] == k);
        }
        if k == x {
            assert(s.push(x)[s.len() as int] == k);
        }
    }
    assert forall|k: Seq<char>| #[trigger] occurrences(s.push(x), k) == occurrences(s, k) + (if k == x { 1int } else { 0int }) by {
        assert(s.push(x).drop_last() =~= s);
    }
}

/// Does the turn hold at least one admitted row?
pub open spec fn turn_live(grp: Seq<int>, adm: Seq<bool>) -> bool {
    exists|q: int| 0 <= q < grp.len() && adm[#[trigger] grp[q]]
}

/// How many of the turns hold at least one admitted row.
pub open spec fn live_turn_count(groups: Seq<Seq<int>>, adm: Seq<bool>, n: int) -> int
    decreases n,
{
    if n <= 0 {
        0
    } else {
        live_turn_count(groups, adm, n - 1)
            + (if turn_live(groups[n - 1], adm) { 1int } else { 0int })
    }
}

/// Count the turns that hold at least one admitted row.
pub fn count_live_turns(groups: &Vec<Vec<usize>>, adm: &Vec<bool>, ghost_groups: Ghost<Seq<Seq<int>>>) -> (n: usize)
    requires
        groups@.len() == ghost_groups@.len(),
        forall|t: int| 0 <= t < groups@.len() ==> (#[trigger] groups@[t])@.map_values(|i: usize| i as int) == ghost_groups@[t],
        forall|t: int, q: int| 0 <= t < ghost_groups@.len() && 0 <= q < ghost_groups@[t].len()
            ==> 0 <= #[trigger] ghost_groups@[t][q] < adm@.len(),
    ensures
        n == live_turn_count(ghost_groups@, adm@, groups@.len() as int),
{
    let ghost g = ghost_groups@;
    let mut n: usize = 0;
    let mut t: usize = 0;
    while t < groups.len()
        invariant
            t <= groups@.len(),
            n <= t,
            groups@.len() == g.len(),
            forall|a: int| 0 <= a < groups@.len() ==> (#[trigger] groups@[a])@.map_values(|i: usize| i as int) == g[a],
            forall|a: int, q: int| 0 <= a < g.len() && 0 <= q < g[a].len() ==> 0 <= #[trigger] g[a][q] < adm@.len(),
            n == live_turn_count(g, adm@, t as int),
        decreases groups.len() - t,
    {
        let grp = &groups[t];
        assert(grp@.map_values(|i: usize| i as int) == g[t as int]);
        let mut any = false;
        let mut q: usize = 0;
        while q < grp.len()
            invariant
                q <= grp@.len(),
                grp@.map_values(|i: usize| i as int) == g[t as int],
                forall|qq: int| 0 <= qq < g[t as int].len() ==> 0 <= #[trigger] g[t as int][qq] < adm@.len(),
                any == exists|qq: int| 0 <= qq < q && adm@[#[trigger] g[t as int][qq]],
            decreases grp.len() - q,
        {
            let m = grp[q];
            assert(g[t as int][q as int] == m as int);
            if adm[m] {
                any = true;
            }
            q = q + 1;
        }
        if any {
            n = n + 1;
        }
        t = t + 1;
    }
    n
}

} // verus!
