//! The decision steps of `show`: checking the arguments, choosing the mode once the
//! transcript is resolved, the address-miss accounting and the unit cap of a rendered
//! fetch, and the misses and cap of a raw fetch.

use vstd::prelude::*;
use crate::chars::{decimal, push_decimal, str_eq};
use crate::model::{join, join_strings};
use crate::range::{RangeSpec, parse_range_spec, spec_parse_range, trimmed, trim_chars};
use crate::show::addr::{LineSpecs, addressed, ascending, effective_cap, spec_cap, insert_sorted, parse_line_specs, spec_parse_line_specs,
    spec_turn_miss, turn_miss_error, turn_spec_is_explicit};
use crate::subagent::{lex_le, str_le};
use crate::search::types::{Exchange, Hit};

verus! {

/// `lex_le` is total.
pub proof fn lemma_lex_total(a: Seq<char>, b: Seq<char>)
    ensures
        lex_le(a, b) || lex_le(b, a),
    decreases a.len(),
{
    if a.len() > 0 && b.len() > 0 && a[0] == b[0] {
        lemma_lex_total(a.drop_first(), b.drop_first());
    }
}

/// `lex_le` is antisymmetric.
pub proof fn lemma_lex_antisym(a: Seq<char>, b: Seq<char>)
    requires
        lex_le(a, b),
        lex_le(b, a),
    ensures
        a == b,
    decreases a.len(),
{
    if a.len() > 0 && b.len() > 0 && a[0] == b[0] {
        lemma_lex_antisym(a.drop_first(), b.drop_first());
        assert(a =~= seq![a[0]] + a.drop_first());
        assert(b =~= seq![b[0]] + b.drop_first());
    } else if a.len() == 0 {
        assert(b.len() == 0 || lex_le(b, a) == false);
    }
}

/// `lex_le` is transitive.
pub proof fn lemma_lex_trans(a: Seq<char>, b: Seq<char>, c: Seq<char>)
    requires
        lex_le(a, b),
        lex_le(b, c),
    ensures
        lex_le(a, c),
    decreases a.len(),
{
    if a.len() > 0 && b.len() > 0 && c.len() > 0 && a[0] == b[0] && b[0] == c[0] {
        lemma_lex_trans(a.drop_first(), b.drop_first(), c.drop_first());
    }
}

/// Strictly increasing in text order.
pub open spec fn text_sorted(s: Seq<Seq<char>>) -> bool {
    forall|i: int, j: int| 0 <= i < j < s.len() ==> lex_le(s[i], s[j]) && s[i] != s[j]
}

pub open spec fn views(v: Seq<String>) -> Seq<Seq<char>> {
    v.map_values(|s: String| s@)
}

fn insert_text(v: &mut Vec<String>, x: String)
    requires
        text_sorted(views(old(v)@)),
    ensures
        text_sorted(views(final(v)@)),
        forall|t: Seq<char>| views(final(v)@).contains(t) <==> (views(old(v)@).contains(t) || t == x@),
{
    let ghost before = views(v@);
    assert(before == views(old(v)@));
    let mut i: usize = 0;
    while i < v.len() && !str_le(x.as_str(), v[i].as_str())
        invariant
            i <= v@.len(),
            views(v@) == before,
            text_sorted(before),
            forall|k: int| 0 <= k < i ==> lex_le(before[k], x@) && before[k] != x@,
        decreases v.len() - i,
    {
        proof {
            lemma_lex_total(x@, before[i as int]);
            if before[i as int] == x@ {
                assert(lex_le(x@, x@)) by { lemma_lex_total(x@, x@); }
            }
        }
        i = i + 1;
    }
    if i < v.len() && str_eq(v[i].as_str(), x.as_str()) {
        assert(before[i as int] == x@);
        assert(before.contains(x@));
        assert(forall|t: Seq<char>| views(v@).contains(t) <==> (views(old(v)@).contains(t) || t == x@));
        return;
    }
    assert(i < before.len() ==> lex_le(x@, before[i as int]) && x@ != before[i as int]);
    let ghost xv = x@;
    v.insert(i, x);
    assert(views(v@) =~= before.insert(i as int, xv));
    assert forall|a: int, b: int| 0 <= a < b < views(v@).len() implies lex_le(views(v@)[a], views(v@)[b]) && views(v@)[a] != views(v@)[b] by {
        let w = views(v@);
        if b > i {
            let c = before[b - 1];
            assert(w[b] == c);
            assert(lex_le(xv, c) && xv != c) by {
                assert(lex_le(xv, before[i as int]));
                assert(xv != before[i as int]);
                if b - 1 > i {
                    lemma_lex_trans(xv, before[i as int], c);
                    if xv == c {
                        lemma_lex_antisym(before[i as int], c);
                    }
                }
            }
            if a < i {
                assert(w[a] == before[a]);
                lemma_lex_trans(before[a], xv, c);
            } else if a > i {
                assert(w[a] == before[a - 1]);
            }
        } else if b == i {
            assert(w[a] == before[a]);
        } else {
            assert(w[a] == before[a] && w[b] == before[b]);
        }
    }
    assert forall|t: Seq<char>| views(v@).contains(t) <==> (before.contains(t) || t == xv) by {
        let w = views(v@);
        if w.contains(t) {
            let k = choose|k: int| 0 <= k < w.len() && w[k] == t;
            if k < i { assert(before[k] == t); } else if k > i { assert(before[k - 1] == t); }
        }
        if before.contains(t) {
            let k = choose|k: int| 0 <= k < before.len() && before[k] == t;
            if k < i { assert(w[k] == t); } else { assert(w[k + 1] == t); }
        }
        if t == xv {
            assert(w[i as int] == t);
        }
    }
    assert(forall|t: Seq<char>| views(v@).contains(t) <==> (views(old(v)@).contains(t) || t == x@));
}

/// The `show` arguments the decision step reads.
#[derive(Debug, Clone)]
pub struct ShowArgs {
    /// The transcript targets given (exactly one is accepted).
    pub target: Vec<String>,
    /// `--line` tokens.
    pub line: Vec<String>,
    /// `--uuid` values.
    pub uuid: Vec<String>,
    /// `--turn` token.
    pub turn: Option<String>,
    /// `--raw`.
    pub raw: bool,
    /// `--format json`.
    pub json: bool,
    /// `--max-count`.
    pub max_count: Option<usize>,
    /// `--branch-points`.
    pub branch_points: bool,
    /// The refusal of a hidden span flag, when one was given.
    pub span_flag_error: Option<String>,
}

/// What `show` was asked for, once the arguments are checked.
#[derive(Debug, Clone)]
pub struct ShowRequest {
    pub target: String,
    pub parsed: Vec<(bool, RangeSpec)>,
    /// The addressed uuids: trimmed, blanks dropped, ascending and distinct.
    pub uuids: Vec<String>,
    pub turn: Option<RangeSpec>,
    pub raw: bool,
    pub json: bool,
    pub max_count: Option<usize>,
    pub branch_points: bool,
}

/// The refusal of `--raw` with `--format json`.
pub open spec fn raw_json_message() -> Seq<char> {
    "--raw is mutually exclusive with --format json (raw IS the file's own JSON)"@
}

/// The refusal of several targets.
pub open spec fn targets_message(targets: Seq<String>) -> Seq<char> {
    "show reads exactly ONE transcript per call; got "@ + decimal(targets.len()) + " targets: "@
        + join(targets.map_values(|t: String| "'"@ + t@ + "'"@), ", "@)
        + " — record addresses (`--line`/`--uuid`/`--turn`) are per-FILE, so fetch each transcript with its own `csift show` call"@
}

fn targets_error(targets: &Vec<String>) -> (m: String)
    ensures
        m@ == targets_message(targets@),
{
    let mut quoted: Vec<String> = Vec::new();
    let mut i: usize = 0;
    while i < targets.len()
        invariant
            i <= targets@.len(),
            quoted@.len() == i,
            forall|k: int| 0 <= k < i ==> (#[trigger] quoted@[k])@ == "'"@ + targets@[k]@ + "'"@,
        decreases targets.len() - i,
    {
        let mut q = String::new();
        q.append("'");
        q.append(targets[i].as_str());
        q.append("'");
        quoted.push(q);
        i = i + 1;
    }
    let mut m = String::new();
    m.append("show reads exactly ONE transcript per call; got ");
    push_decimal(&mut m, targets.len() as u64);
    m.append(" targets: ");
    let j = join_strings(&quoted, ", ");
    m.append(j.as_str());
    m.append(" — record addresses (`--line`/`--uuid`/`--turn`) are per-FILE, so fetch each transcript with its own `csift show` call");
    assert(quoted@.map_values(|s: String| s@) =~= targets@.map_values(|t: String| "'"@ + t@ + "'"@));
    assert(m@ =~= targets_message(targets@));
    m
}

/// The uuids of `--uuid`, trimmed and without blanks, as a set.
pub open spec fn uuid_set(given: Seq<String>, t: Seq<char>) -> bool {
    t.len() > 0 && exists|k: int| 0 <= k < given.len() && trimmed(given[k]@) == t
}

/// Check `show`'s arguments, in the order a user meets the refusals: a hidden span flag,
/// `--raw` with JSON, a malformed `--line`, a malformed `--turn`, more or fewer than
/// one target.
pub fn run_show(args: &ShowArgs) -> (r: Result<ShowRequest, String>)
    ensures
        r is Ok <==> (args.span_flag_error is None && !(args.raw && args.json)
            && spec_parse_line_specs(args.line@) is Some
            && (args.turn matches Some(t) ==> spec_parse_range(trimmed(t@), false) is Some)
            && args.target@.len() == 1),
        args.span_flag_error matches Some(m) ==> r == Err::<ShowRequest, String>(m),
        args.span_flag_error is None && args.raw && args.json ==> (r matches Err(m) && m@ == raw_json_message()),
        args.span_flag_error is None && !(args.raw && args.json) && spec_parse_line_specs(args.line@) is Some
            && (args.turn matches Some(t) ==> spec_parse_range(trimmed(t@), false) is Some)
            && args.target@.len() != 1 ==> (r matches Err(m) && m@ == targets_message(args.target@)),
        r matches Ok(q) ==> {
            &&& q.target@ == args.target@[0]@
            &&& Some(q.parsed@) == spec_parse_line_specs(args.line@)
            &&& text_sorted(views(q.uuids@))
            &&& forall|t: Seq<char>| views(q.uuids@).contains(t) <==> uuid_set(args.uuid@, t)
            &&& q.turn == match args.turn { Some(t) => spec_parse_range(trimmed(t@), false), None => None }
            &&& q.raw == args.raw && q.json == args.json && q.max_count == args.max_count
            &&& q.branch_points == args.branch_points
        },
{
    if let Some(m) = &args.span_flag_error {
        return Err(m.clone());
    }
    if args.raw && args.json {
        let m = "--raw is mutually exclusive with --format json (raw IS the file's own JSON)".to_string();
        return Err(m);
    }
    let parsed = match parse_line_specs(&args.line) {
        Ok(p) => p,
        Err(e) => return Err(e),
    };
    let mut uuids: Vec<String> = Vec::new();
    let mut i: usize = 0;
    while i < args.uuid.len()
        invariant
            i <= args.uuid@.len(),
            text_sorted(views(uuids@)),
            forall|t: Seq<char>| views(uuids@).contains(t) <==> (t.len() > 0
                && exists|k: int| 0 <= k < i && trimmed(args.uuid@[k]@) == t),
        decreases args.uuid.len() - i,
    {
        let cs = crate::chars::to_chars(args.uuid[i].as_str());
        let t = trim_chars(cs.as_slice());
        if t.len() > 0 {
            insert_text(&mut uuids, crate::chars::from_chars(t.as_slice()));
        }
        assert forall|t2: Seq<char>| views(uuids@).contains(t2) <==> (t2.len() > 0
            && exists|k: int| 0 <= k < i + 1 && trimmed(args.uuid@[k]@) == t2) by {
            if t2.len() > 0 && trimmed(args.uuid@[i as int]@) == t2 {
                assert(exists|k: int| 0 <= k < i + 1 && trimmed(args.uuid@[k]@) == t2);
            }
            if exists|k: int| 0 <= k < i + 1 && trimmed(args.uuid@[k]@) == t2 {
                let k = choose|k: int| 0 <= k < i + 1 && trimmed(args.uuid@[k]@) == t2;
                if k < i {
                    assert(exists|k: int| 0 <= k < i && trimmed(args.uuid@[k]@) == t2);
                }
            }
        }
        i = i + 1;
    }
    let turn = match &args.turn {
        Some(t) => match parse_range_spec(t.as_str(), "--turn", false) {
            Ok(sp) => Some(sp),
            Err(e) => return Err(e),
        },
        None => None,
    };
    if args.target.len() != 1 {
        return Err(targets_error(&args.target));
    }
    proof { reveal_strlit("--raw is mutually exclusive with --format json (raw IS the file's own JSON)"); }
    Ok(ShowRequest {
        target: args.target[0].clone(),
        parsed,
        uuids,
        turn,
        raw: args.raw,
        json: args.json,
        max_count: args.max_count,
        branch_points: args.branch_points,
    })
}

/// Every hit of the exchanges, in order.
pub open spec fn all_hits(exs: Seq<Exchange>) -> Seq<Hit>
    decreases exs.len(),
{
    if exs.len() == 0 { Seq::empty() } else { all_hits(exs.drop_last()) + exs.last().hits@ }
}

/// A flat hit: its line, uuid and whether it came from the sidecar.
pub type FlatHit = (usize, Option<String>, bool);

/// Some hit sits on line `n`.
pub open spec fn line_hit(f: Seq<FlatHit>, n: usize) -> bool {
    exists|k: int| 0 <= k < f.len() && (#[trigger] f[k]).0 == n
}

/// Some hit sits in `[a, b]`.
pub open spec fn range_hit(f: Seq<FlatHit>, a: usize, b: usize) -> bool {
    exists|k: int| 0 <= k < f.len() && a <= (#[trigger] f[k]).0 <= b
}

/// Some hit carries uuid `u`.
pub open spec fn uuid_hit(f: Seq<FlatHit>, u: Seq<char>) -> bool {
    exists|k: int| 0 <= k < f.len() && crate::model::opt_view((#[trigger] f[k]).1) == Some(u)
}

pub open spec fn line_misses(ls: Seq<usize>, f: Seq<FlatHit>) -> Seq<Seq<char>>
    decreases ls.len(),
{
    if ls.len() == 0 { Seq::empty() } else {
        let r = line_misses(ls.drop_last(), f);
        if line_hit(f, ls.last()) { r } else { r.push(seq!['L'] + decimal(ls.last() as nat)) }
    }
}

pub open spec fn range_misses(rs: Seq<(usize, usize)>, f: Seq<FlatHit>) -> Seq<Seq<char>>
    decreases rs.len(),
{
    if rs.len() == 0 { Seq::empty() } else {
        let r = range_misses(rs.drop_last(), f);
        let x = rs.last();
        if range_hit(f, x.0, x.1) { r } else { r.push(seq!['L'] + decimal(x.0 as nat) + seq!['-'] + decimal(x.1 as nat)) }
    }
}

pub open spec fn uuid_misses(us: Seq<String>, f: Seq<FlatHit>) -> Seq<Seq<char>>
    decreases us.len(),
{
    if us.len() == 0 { Seq::empty() } else {
        let r = uuid_misses(us.drop_last(), f);
        if uuid_hit(f, us.last()@) { r } else { r.push("uuid "@ + us.last()@) }
    }
}

/// The misses of a rendered fetch, in order: explicit lines no hit sits on, ranges no hit
/// falls in, uuids no hit carries.
pub open spec fn rendered_misses(explicit: Seq<usize>, ranges: Seq<(usize, usize)>, uuids: Seq<String>, f: Seq<FlatHit>) -> Seq<Seq<char>> {
    line_misses(explicit, f) + range_misses(ranges, f) + uuid_misses(uuids, f)
}

/// The tail of the address-miss refusal: what an explicit address renders.
pub open spec fn miss_suffix() -> Seq<char> {
    " — an explicit address renders message lines (role:user/role:assistant, superseded drafts included), attachment lines, and the promoted non-record lines (a queue-operation with text, turn_duration, away_summary, stop_hook_summary, file-history-snapshot/-delta); session-state cache lines (last-prompt, mode, ai-title, …), a content-less queue dequeue, unpromoted system subtypes and torn lines are inspectable with `--raw`"@
}

/// What settling a rendered fetch reports besides the trimmed exchanges.
#[derive(Debug)]
pub struct Settled {
    /// Record units beyond the cap.
    pub dropped: usize,
    /// The continuation command for the dropped units, when they have lines.
    pub remainder_cmd: Option<String>,
    /// Addressed lines that are not records.
    pub non_record_lines: usize,
    /// The unit cap in force.
    pub cap: usize,
}

pub(crate) fn all_hits_vec(exs: &Vec<Exchange>) -> (out: Vec<FlatHit>)
    ensures
        out@.len() == all_hits(exs@).len(),
        forall|k: int| 0 <= k < out@.len() ==> (#[trigger] out@[k]).0 == all_hits(exs@)[k].line
            && out@[k].1 == all_hits(exs@)[k].uuid && out@[k].2 == all_hits(exs@)[k].from_sidecar,
{
    let mut out: Vec<FlatHit> = Vec::new();
    let mut e: usize = 0;
    while e < exs.len()
        invariant
            e <= exs@.len(),
            out@.len() == all_hits(exs@.take(e as int)).len(),
            forall|k: int| 0 <= k < out@.len() ==> (#[trigger] out@[k]).0 == all_hits(exs@.take(e as int))[k].line
                && out@[k].1 == all_hits(exs@.take(e as int))[k].uuid && out@[k].2 == all_hits(exs@.take(e as int))[k].from_sidecar,
        decreases exs.len() - e,
    {
        assert(exs@.take(e as int + 1).drop_last() =~= exs@.take(e as int));
        let ghost prev = all_hits(exs@.take(e as int));
        let hs = &exs[e].hits;
        let mut k: usize = 0;
        while k < hs.len()
            invariant
                k <= hs@.len(),
                out@.len() == prev.len() + k,
                forall|q: int| 0 <= q < out@.len() ==> (#[trigger] out@[q]).0 == (prev + hs@)[q].line
                    && out@[q].1 == (prev + hs@)[q].uuid && out@[q].2 == (prev + hs@)[q].from_sidecar,
            decreases hs.len() - k,
        {
            let u = match &hs[k].uuid {
                Some(x) => Some(x.clone()),
                None => None,
            };
            out.push((hs[k].line, u, hs[k].from_sidecar));
            k = k + 1;
        }
        e = e + 1;
    }
    assert(exs@.take(exs.len() as int) =~= exs@);
    out
}

fn has_line(f: &Vec<FlatHit>, a: usize, b: usize) -> (r: bool)
    ensures
        r == range_hit(f@, a, b),
{
    let mut k: usize = 0;
    while k < f.len()
        invariant
            k <= f@.len(),
            forall|q: int| 0 <= q < k ==> !(a <= (#[trigger] f@[q]).0 <= b),
        decreases f.len() - k,
    {
        if a <= f[k].0 && f[k].0 <= b {
            return true;
        }
        k = k + 1;
    }
    false
}

fn has_uuid(f: &Vec<FlatHit>, u: &String) -> (r: bool)
    ensures
        r == uuid_hit(f@, u@),
{
    let mut k: usize = 0;
    while k < f.len()
        invariant
            k <= f@.len(),
            forall|q: int| 0 <= q < k ==> crate::model::opt_view((#[trigger] f@[q]).1) != Some(u@),
        decreases f.len() - k,
    {
        if let Some(x) = &f[k].1 {
            if str_eq(x.as_str(), u.as_str()) {
                return true;
            }
        }
        k = k + 1;
    }
    false
}

fn line_token(n: usize) -> (s: String)
    ensures
        s@ == seq!['L'] + decimal(n as nat),
{
    let mut s = String::new();
    crate::chars::push_char(&mut s, 'L');
    push_decimal(&mut s, n as u64);
    s
}

/// The misses of a rendered fetch.
pub fn misses_of(explicit: &Vec<usize>, ranges: &Vec<(usize, usize)>, uuids: &Vec<String>, f: &Vec<FlatHit>) -> (m: Vec<String>)
    ensures
        views(m@) == rendered_misses(explicit@, ranges@, uuids@, f@),
{
    let mut m: Vec<String> = Vec::new();
    let mut i: usize = 0;
    while i < explicit.len()
        invariant
            i <= explicit@.len(),
            views(m@) == line_misses(explicit@.take(i as int), f@),
        decreases explicit.len() - i,
    {
        assert(explicit@.take(i as int + 1).drop_last() =~= explicit@.take(i as int));
        let n = explicit[i];
        let ghost before = views(m@);
        if !has_line(f, n, n) {
            m.push(line_token(n));
            assert(views(m@) =~= before.push(seq!['L'] + decimal(n as nat)));
        }
        i = i + 1;
    }
    assert(explicit@.take(explicit.len() as int) =~= explicit@);
    let ghost after_lines = views(m@);
    let mut r: usize = 0;
    while r < ranges.len()
        invariant
            r <= ranges@.len(),
            views(m@) == after_lines + range_misses(ranges@.take(r as int), f@),
        decreases ranges.len() - r,
    {
        assert(ranges@.take(r as int + 1).drop_last() =~= ranges@.take(r as int));
        let (a, b) = ranges[r];
        let ghost before = views(m@);
        if !has_line(f, a, b) {
            let mut s = line_token(a);
            let ghost s0 = s@;
            crate::chars::push_char(&mut s, '-');
            let ghost s1 = s@;
            push_decimal(&mut s, b as u64);
            assert(s1 =~= s0 + seq!['-']);
            assert(s@ =~= seq!['L'] + decimal(a as nat) + seq!['-'] + decimal(b as nat));
            m.push(s);
            assert(views(m@) =~= before.push(seq!['L'] + decimal(a as nat) + seq!['-'] + decimal(b as nat)));
        }
        r = r + 1;
    }
    assert(ranges@.take(ranges.len() as int) =~= ranges@);
    let ghost after_ranges = views(m@);
    let mut u: usize = 0;
    while u < uuids.len()
        invariant
            u <= uuids@.len(),
            views(m@) == after_ranges + uuid_misses(uuids@.take(u as int), f@),
        decreases uuids.len() - u,
    {
        assert(uuids@.take(u as int + 1).drop_last() =~= uuids@.take(u as int));
        let ghost before = views(m@);
        if !has_uuid(f, &uuids[u]) {
            let mut s = String::new();
            s.append("uuid ");
            s.append(uuids[u].as_str());
            m.push(s);
            proof { reveal_strlit("uuid "); }
            assert(views(m@) =~= before.push("uuid "@ + uuids@[u as int]@));
        }
        u = u + 1;
    }
    assert(uuids@.take(uuids.len() as int) =~= uuids@);
    assert(views(m@) =~= rendered_misses(explicit@, ranges@, uuids@, f@));
    m
}

proof fn lemma_all_hits_push(exs: Seq<Exchange>, e: Exchange)
    ensures
        all_hits(exs.push(e)) == all_hits(exs) + e.hits@,
{
    assert(exs.push(e).drop_last() =~= exs);
}

proof fn lemma_all_hits_concat(a: Seq<Exchange>, b: Seq<Exchange>)
    ensures
        all_hits(a + b) == all_hits(a) + all_hits(b),
    decreases b.len(),
{
    if b.len() == 0 {
        assert(a + b =~= a);
        assert(all_hits(b) =~= Seq::<Hit>::empty());
        assert(all_hits(a) + all_hits(b) =~= all_hits(a));
    } else {
        lemma_all_hits_concat(a, b.drop_last());
        assert((a + b).drop_last() =~= a + b.drop_last());
        assert((a + b).last() == b.last());
        assert(all_hits(a + b) =~= all_hits(a) + all_hits(b));
    }
}

proof fn lemma_all_hits_one(x: Exchange)
    ensures
        all_hits(seq![x]) == x.hits@,
{
    assert(seq![x].drop_last() =~= Seq::<Exchange>::empty());
    assert(all_hits(Seq::<Exchange>::empty()) =~= Seq::<Hit>::empty());
    assert(seq![x].last() == x);
    assert(all_hits(seq![x]) == all_hits(seq![x].drop_last()) + seq![x].last().hits@);
    assert(all_hits(seq![x]) =~= x.hits@);
}

/// The addressed lines no hit sits on, counted (0 when nothing is line-addressed).
pub open spec fn count_non_records(addr: Seq<usize>, f: Seq<FlatHit>) -> nat
    decreases addr.len(),
{
    if addr.len() == 0 { 0 } else {
        count_non_records(addr.drop_last(), f) + if line_hit(f, addr.last()) { 0nat } else { 1nat }
    }
}

/// The located, native lines among flat hits, in order.
pub open spec fn native_lines(f: Seq<FlatHit>) -> Seq<usize>
    decreases f.len(),
{
    if f.len() == 0 { Seq::empty() } else {
        let r = native_lines(f.drop_last());
        if !f.last().2 && f.last().0 > 0 { r.push(f.last().0) } else { r }
    }
}

/// The continuation command for the units past the cap: the first and last native line
/// among them.
pub open spec fn remainder_command(sid: Seq<char>, f: Seq<FlatHit>, cap: nat) -> Option<Seq<char>> {
    let ls = native_lines(f.skip(cap as int));
    if ls.len() == 0 {
        None
    } else {
        Some("csift show @"@ + sid + " --line "@ + decimal(ls[0] as nat) + ".."@ + decimal(ls.last() as nat))
    }
}

/// Two ascending lists holding the same numbers are the same list.
pub proof fn lemma_ascending_unique(a: Seq<usize>, b: Seq<usize>)
    requires
        ascending(a),
        ascending(b),
        forall|n: usize| a.contains(n) <==> b.contains(n),
    ensures
        a == b,
    decreases a.len(),
{
    if a.len() == 0 {
        if b.len() > 0 {
            assert(b.contains(b[0]));
        }
        assert(a =~= b);
    } else {
        assert(a.contains(a[0]));
        assert(b.len() > 0);
        assert(b.contains(b[0]));
        let ka = choose|k: int| 0 <= k < a.len() && a[k] == b[0];
        let kb = choose|k: int| 0 <= k < b.len() && b[k] == a[0];
        assert(a[0] == b[0]) by {
            if a[0] < b[0] {
                if kb > 0 { assert(b[0] < b[kb]); }
            } else if a[0] > b[0] {
                if ka > 0 { assert(a[0] < a[ka]); }
            }
        }
        assert forall|n: usize| a.drop_first().contains(n) <==> b.drop_first().contains(n) by {
            if a.drop_first().contains(n) {
                let k = choose|k: int| 0 <= k < a.drop_first().len() && a.drop_first()[k] == n;
                assert(a[k + 1] == n && a[0] < n);
                assert(b.contains(n));
                let j = choose|j: int| 0 <= j < b.len() && b[j] == n;
                assert(j > 0);
                assert(b.drop_first()[j - 1] == n);
            }
            if b.drop_first().contains(n) {
                let k = choose|k: int| 0 <= k < b.drop_first().len() && b.drop_first()[k] == n;
                assert(b[k + 1] == n && b[0] < n);
                assert(a.contains(n));
                let j = choose|j: int| 0 <= j < a.len() && a[j] == n;
                assert(j > 0);
                assert(a.drop_first()[j - 1] == n);
            }
        }
        lemma_ascending_unique(a.drop_first(), b.drop_first());
        assert(a =~= seq![a[0]] + a.drop_first());
        assert(b =~= seq![b[0]] + b.drop_first());
    }
}

/// The refusal of a fetch whose addresses missed.
pub open spec fn misses_message(ms: Seq<Seq<char>>) -> Seq<char> {
    "no such record(s): "@ + join(ms, ", "@) + miss_suffix()
}

fn native_lines_of(f: &Vec<FlatHit>, from: usize) -> (out: Vec<usize>)
    requires
        from <= f@.len(),
    ensures
        out@ == native_lines(f@.skip(from as int)),
{
    let mut out: Vec<usize> = Vec::new();
    let mut k = from;
    while k < f.len()
        invariant
            from <= k <= f@.len(),
            out@ == native_lines(f@.subrange(from as int, k as int)),
        decreases f.len() - k,
    {
        assert(f@.subrange(from as int, k + 1).drop_last() =~= f@.subrange(from as int, k as int));
        if !f[k].2 && f[k].0 > 0 {
            out.push(f[k].0);
        }
        k = k + 1;
    }
    assert(f@.subrange(from as int, f@.len() as int) =~= f@.skip(from as int));
    out
}

/// Settle a rendered fetch: an explicit `--turn` that reached nothing is a turn miss; an
/// explicit line, a range or a uuid that no fetched record answers is an address miss;
/// otherwise count the addressed lines that are not records and keep the first `cap`
/// record units, reporting the drop and the continuation command.
pub fn run_rendered(exchanges: &mut Vec<Exchange>, specs: &LineSpecs, uuids: &Vec<String>, turn: Option<RangeSpec>,
    turn_count: usize, max_count: Option<usize>, session_id: &str) -> (r: Result<Settled, String>)
    ensures
        ({
            let f = all_hits(old(exchanges)@).map_values(|h: Hit| (h.line, h.uuid, h.from_sidecar));
            let turn_miss = turn matches Some(sp) && sp.start is At && sp.end is At && old(exchanges)@.len() == 0;
            &&& turn_miss ==> (r matches Err(m) && m@ == spec_turn_miss(turn->0, turn_count as nat))
            &&& forall|ex: Seq<usize>| #[trigger] ascending(ex) && (forall|n: usize| ex.contains(n) <==> specs.explicit@.contains(n))
                    ==> (!turn_miss ==> (r is Err <==> rendered_misses(ex, specs.ranges@, uuids@, f).len() > 0))
            &&& forall|ex: Seq<usize>| #[trigger] ascending(ex) && (forall|n: usize| ex.contains(n) <==> specs.explicit@.contains(n))
                    ==> (!turn_miss ==> (r matches Err(m) ==> m@ == misses_message(rendered_misses(ex, specs.ranges@, uuids@, f))))
            &&& r matches Ok(st) ==> {
                let cap = spec_cap(max_count);
                &&& st.cap == cap
                &&& st.dropped == (if f.len() > cap { f.len() - cap } else { 0 })
                &&& crate::model::opt_view(st.remainder_cmd) == (if f.len() > cap { remainder_command(session_id@, f, cap as nat) } else { None })
                &&& all_hits(final(exchanges)@) == (if f.len() > cap { all_hits(old(exchanges)@).take(cap as int) } else { all_hits(old(exchanges)@) })
                &&& forall|addr: Seq<usize>| #[trigger] ascending(addr)
                    && (forall|n: usize| addr.contains(n) <==> addressed(specs.explicit@, specs.ranges@, n))
                    ==> st.non_record_lines == count_non_records(addr, f)
            }
        }),
{
    if let Some(sp) = &turn {
        if turn_spec_is_explicit(sp) && exchanges.len() == 0 {
            return Err(turn_miss_error(sp, turn_count));
        }
    }
    let flat = all_hits_vec(exchanges);
    let ghost f = all_hits(exchanges@).map_values(|h: Hit| (h.line, h.uuid, h.from_sidecar));
    assert(flat@ =~= f);
    let mut explicit: Vec<usize> = Vec::new();
    let mut i: usize = 0;
    while i < specs.explicit.len()
        invariant
            i <= specs.explicit@.len(),
            ascending(explicit@),
            forall|n: usize| explicit@.contains(n) <==> exists|k: int| 0 <= k < i && specs.explicit@[k] == n,
        decreases specs.explicit.len() - i,
    {
        insert_sorted(&mut explicit, specs.explicit[i]);
        i = i + 1;
    }
    let misses = misses_of(&explicit, &specs.ranges, uuids, &flat);
    proof {
        assert forall|ex: Seq<usize>| #[trigger] ascending(ex) && (forall|n: usize| ex.contains(n) <==> specs.explicit@.contains(n))
            implies ex == explicit@ by {
            assert forall|n: usize| ex.contains(n) <==> explicit@.contains(n) by {
                if specs.explicit@.contains(n) {
                    let k = choose|k: int| 0 <= k < specs.explicit@.len() && specs.explicit@[k] == n;
                    assert(exists|k: int| 0 <= k < specs.explicit@.len() && specs.explicit@[k] == n);
                }
            }
            lemma_ascending_unique(ex, explicit@);
        }
    }
    if misses.len() > 0 {
        let mut m = String::new();
        m.append("no such record(s): ");
        let joined = join_strings(&misses, ", ");
        m.append(joined.as_str());
        m.append(" — an explicit address renders message lines (role:user/role:assistant, superseded drafts included), attachment lines, and the promoted non-record lines (a queue-operation with text, turn_duration, away_summary, stop_hook_summary, file-history-snapshot/-delta); session-state cache lines (last-prompt, mode, ai-title, …), a content-less queue dequeue, unpromoted system subtypes and torn lines are inspectable with `--raw`");
        proof {
            reveal_strlit("no such record(s): ");
            reveal_strlit(" — an explicit address renders message lines (role:user/role:assistant, superseded drafts included), attachment lines, and the promoted non-record lines (a queue-operation with text, turn_duration, away_summary, stop_hook_summary, file-history-snapshot/-delta); session-state cache lines (last-prompt, mode, ai-title, …), a content-less queue dequeue, unpromoted system subtypes and torn lines are inspectable with `--raw`");
        }
        assert(m@ =~= misses_message(views(misses@)));
        return Err(m);
    }
    let addr = specs.all();
    proof {
        assert forall|ad: Seq<usize>| #[trigger] ascending(ad) && (forall|n: usize| ad.contains(n) <==> addressed(specs.explicit@, specs.ranges@, n))
            implies ad == addr@ by {
            lemma_ascending_unique(ad, addr@);
        }
    }
    let mut non_record: usize = 0;
    let mut a: usize = 0;
    while a < addr.len()
        invariant
            a <= addr@.len(),
            non_record <= a,
            non_record == count_non_records(addr@.take(a as int), flat@),
        decreases addr.len() - a,
    {
        assert(addr@.take(a as int + 1).drop_last() =~= addr@.take(a as int));
        if !has_line(&flat, addr[a], addr[a]) {
            non_record = non_record + 1;
        }
        a = a + 1;
    }
    assert(addr@.take(addr.len() as int) =~= addr@);
    let cap = effective_cap(max_count);
    let total = flat.len();
    let mut dropped: usize = 0;
    let mut remainder_cmd: Option<String> = None;
    if total > cap {
        dropped = total - cap;
        let omitted = native_lines_of(&flat, cap);
        if omitted.len() > 0 {
            let mut c = String::new();
            c.append("csift show @");
            c.append(session_id);
            c.append(" --line ");
            push_decimal(&mut c, omitted[0] as u64);
            c.append("..");
            push_decimal(&mut c, omitted[omitted.len() - 1] as u64);
            proof {
                reveal_strlit("csift show @");
                reveal_strlit(" --line ");
                reveal_strlit("..");
            }
            assert(c@ =~= remainder_command(session_id@, f, cap as nat)->0);
            remainder_cmd = Some(c);
        }
        let n_ex: usize = exchanges.len();
        let ghost orig = exchanges@;
        assert(orig.len() == n_ex);
        let ghost all0 = all_hits(orig);
        let mut budget = cap;
        let mut kept: Vec<Exchange> = Vec::new();
        let mut taken: usize = 0;
        while exchanges.len() > 0 && budget > 0
            invariant
                taken <= orig.len(),
                orig.len() <= usize::MAX,
                all0 == all_hits(orig),
                exchanges@ == orig.skip(taken as int),
                budget <= cap,
                cap < all0.len(),
                all_hits(kept@) == all0.take(cap - budget),
                budget > 0 ==> all_hits(orig.take(taken as int)) == all0.take(cap - budget),
            decreases exchanges.len(),
        {
            proof {
                assert(orig.skip(taken as int).len() == orig.len() - taken);
                assert(taken < orig.len());
                lemma_all_hits_concat(orig.take(taken as int), orig.skip(taken as int));
                assert(orig.take(taken as int) + orig.skip(taken as int) =~= orig);
            }
            let mut ex = exchanges.remove(0);
            let ghost exv = ex;
            proof {
                assert(orig.skip(taken as int)[0] == exv);
                assert(orig.take(taken as int + 1) =~= orig.take(taken as int).push(exv));
                lemma_all_hits_push(orig.take(taken as int), exv);
                assert(orig.skip(taken as int + 1) =~= orig.skip(taken as int).drop_first());
                assert(orig.skip(taken as int) =~= seq![exv] + orig.skip(taken as int + 1));
                lemma_all_hits_concat(seq![exv], orig.skip(taken as int + 1));
                lemma_all_hits_one(exv);
                lemma_all_hits_concat(orig.take(taken as int + 1), orig.skip(taken as int + 1));
                assert(orig.take(taken as int + 1) + orig.skip(taken as int + 1) =~= orig);
            }
            let ghost kept_before = kept@;
            let ghost xs = all_hits(orig.take(taken as int));
            let ghost es = exv.hits@;
            let ghost rs = all_hits(orig.skip(taken as int + 1));
            proof {
                assert(all0 =~= xs + es + rs);
                assert(xs.len() == cap - budget);
            }
            if ex.hits.len() <= budget {
                let ghost b0 = budget;
                budget = budget - ex.hits.len();
                kept.push(ex);
                proof {
                    lemma_all_hits_push(kept_before, exv);
                    assert(all0.take(cap - budget) =~= xs + es);
                    assert(all_hits(kept@) =~= all0.take(cap - budget));
                    assert(all_hits(orig.take(taken as int + 1)) =~= xs + es);
                }
            } else {
                let ghost b0 = budget;
                ex.hits.truncate(budget);
                let ghost exn = ex;
                kept.push(ex);
                proof {
                    lemma_all_hits_push(kept_before, exn);
                    assert(exn.hits@ =~= es.take(b0 as int));
                    assert(all0.take(cap as int) =~= xs + es.take(b0 as int));
                    assert(all_hits(kept@) =~= all0.take(cap as int));
                }
                budget = 0;
            }
            taken = taken + 1;
        }
        proof {
            if budget > 0 {
                assert(exchanges@.len() == 0);
                assert(orig.skip(taken as int).len() == 0);
                assert(taken == orig.len());
                assert(orig.take(taken as int) =~= orig);
                assert(all0 == all0.take(cap - budget));
                assert(false);
            }
        }
        *exchanges = kept;
    }
    Ok(Settled { dropped, remainder_cmd, non_record_lines: non_record, cap })
}

/// ` (file has N lines)`.
pub open spec fn file_has(total: nat) -> Seq<char> {
    " (file has "@ + decimal(total) + " lines)"@
}

pub open spec fn raw_line_misses(ls: Seq<usize>, total: usize) -> Seq<Seq<char>>
    decreases ls.len(),
{
    if ls.len() == 0 { Seq::empty() } else {
        let r = raw_line_misses(ls.drop_last(), total);
        if ls.last() > total { r.push(seq!['L'] + decimal(ls.last() as nat) + file_has(total as nat)) } else { r }
    }
}

pub open spec fn raw_range_misses(rs: Seq<(usize, usize)>, total: usize) -> Seq<Seq<char>>
    decreases rs.len(),
{
    if rs.len() == 0 { Seq::empty() } else {
        let r = raw_range_misses(rs.drop_last(), total);
        let x = rs.last();
        if x.0 > total {
            r.push(seq!['L'] + decimal(x.0 as nat) + seq!['-'] + decimal(x.1 as nat) + file_has(total as nat))
        } else {
            r
        }
    }
}

pub open spec fn raw_uuid_misses(slots: Seq<(String, Option<usize>)>) -> Seq<Seq<char>>
    decreases slots.len(),
{
    if slots.len() == 0 { Seq::empty() } else {
        let r = raw_uuid_misses(slots.drop_last());
        if slots.last().1 is None { r.push("uuid "@ + slots.last().0@) } else { r }
    }
}

/// What a raw fetch keeps and reports once its lines are read.
#[derive(Debug)]
pub struct RawSettled {
    /// How many of the kept lines (ascending) are emitted.
    pub keep: usize,
    /// Lines beyond the cap.
    pub dropped: usize,
    /// First and last omitted line, for the continuation command.
    pub continuation: Option<(usize, usize)>,
    /// The unit cap in force.
    pub cap: usize,
}

fn file_has_text(s: &mut String, total: usize)
    ensures
        final(s)@ == old(s)@ + file_has(total as nat),
{
    s.append(" (file has ");
    push_decimal(s, total as u64);
    s.append(" lines)");
    proof {
        reveal_strlit(" (file has ");
        reveal_strlit(" lines)");
    }
    assert(final(s)@ =~= old(s)@ + file_has(total as nat));
}

/// Settle a raw fetch once the file is read: an explicit line past the end, a range
/// starting past it, or a uuid no line carries is an address miss; otherwise keep the
/// first `cap` of the wanted lines (ascending) and report the rest.
pub fn run_raw(explicit: &Vec<usize>, ranges: &Vec<(usize, usize)>, total_lines: usize,
    uuid_slots: &Vec<(String, Option<usize>)>, kept_lines: &Vec<usize>, max_count: Option<usize>)
    -> (r: Result<RawSettled, String>)
    ensures
        ({
            let ms = raw_line_misses(explicit@, total_lines) + raw_range_misses(ranges@, total_lines)
                + raw_uuid_misses(uuid_slots@);
            &&& r is Err <==> ms.len() > 0
            &&& r matches Err(m) ==> m@ == "no such record(s): "@ + join(ms, ", "@)
            &&& r matches Ok(st) ==> {
                let cap = spec_cap(max_count);
                let n: int = kept_lines@.len() as int;
                &&& st.cap == cap
                &&& st.keep as int == (if n > cap { cap as int } else { n })
                &&& st.dropped as int == (if n > cap { n - cap } else { 0 })
                &&& st.continuation == (if n > cap { Some((kept_lines@[cap as int], kept_lines@[n - 1])) } else { None })
            }
        }),
{
    let mut ms: Vec<String> = Vec::new();
    let mut i: usize = 0;
    while i < explicit.len()
        invariant
            i <= explicit@.len(),
            views(ms@) == raw_line_misses(explicit@.take(i as int), total_lines),
        decreases explicit.len() - i,
    {
        assert(explicit@.take(i as int + 1).drop_last() =~= explicit@.take(i as int));
        let n = explicit[i];
        let ghost before = views(ms@);
        if n > total_lines {
            let mut t = line_token(n);
            file_has_text(&mut t, total_lines);
            ms.push(t);
            assert(views(ms@) =~= before.push(seq!['L'] + decimal(n as nat) + file_has(total_lines as nat)));
        }
        i = i + 1;
    }
    assert(explicit@.take(explicit.len() as int) =~= explicit@);
    let ghost a1 = views(ms@);
    let mut k: usize = 0;
    while k < ranges.len()
        invariant
            k <= ranges@.len(),
            views(ms@) == a1 + raw_range_misses(ranges@.take(k as int), total_lines),
        decreases ranges.len() - k,
    {
        assert(ranges@.take(k as int + 1).drop_last() =~= ranges@.take(k as int));
        let (a, b) = ranges[k];
        let ghost before = views(ms@);
        if a > total_lines {
            let mut t = line_token(a);
            let ghost t0 = t@;
            crate::chars::push_char(&mut t, '-');
            let ghost t1 = t@;
            push_decimal(&mut t, b as u64);
            let ghost t2 = t@;
            file_has_text(&mut t, total_lines);
            assert(t1 =~= t0 + seq!['-']);
            assert(t@ =~= seq!['L'] + decimal(a as nat) + seq!['-'] + decimal(b as nat) + file_has(total_lines as nat));
            ms.push(t);
            assert(views(ms@) =~= before.push(seq!['L'] + decimal(a as nat) + seq!['-'] + decimal(b as nat) + file_has(total_lines as nat)));
        }
        k = k + 1;
    }
    assert(ranges@.take(ranges.len() as int) =~= ranges@);
    let ghost a2 = views(ms@);
    let mut u: usize = 0;
    while u < uuid_slots.len()
        invariant
            u <= uuid_slots@.len(),
            views(ms@) == a2 + raw_uuid_misses(uuid_slots@.take(u as int)),
        decreases uuid_slots.len() - u,
    {
        assert(uuid_slots@.take(u as int + 1).drop_last() =~= uuid_slots@.take(u as int));
        let ghost before = views(ms@);
        if uuid_slots[u].1.is_none() {
            let mut t = String::new();
            t.append("uuid ");
            t.append(uuid_slots[u].0.as_str());
            proof { reveal_strlit("uuid "); }
            ms.push(t);
            assert(views(ms@) =~= before.push("uuid "@ + uuid_slots@[u as int].0@));
        }
        u = u + 1;
    }
    assert(uuid_slots@.take(uuid_slots.len() as int) =~= uuid_slots@);
    if ms.len() > 0 {
        let mut m = String::new();
        m.append("no such record(s): ");
        let joined = join_strings(&ms, ", ");
        m.append(joined.as_str());
        proof { reveal_strlit("no such record(s): "); }
        assert(m@ =~= "no such record(s): "@ + join(views(ms@), ", "@));
        return Err(m);
    }
    let cap = effective_cap(max_count);
    let n = kept_lines.len();
    if n > cap {
        Ok(RawSettled { keep: cap, dropped: n - cap, continuation: Some((kept_lines[cap], kept_lines[n - 1])), cap })
    } else {
        Ok(RawSettled { keep: n, dropped: 0, continuation: None, cap })
    }
}

/// How a checked request is fetched once its transcript is known.
#[derive(Debug, Clone, Copy, PartialEq, Eq, Structural)]
pub enum ShowMode {
    BranchPoints,
    Raw,
    Rendered,
}

/// The refusal of a request that names no record.
pub open spec fn needs_address_message(file: Seq<char>) -> Seq<char> {
    "show needs an address: `--line <N|A..B|N..|-k>` (1-based jsonl lines, the `Lnnnn` other csift commands print), `--turn <N|A..B|-k>` (0-based turn index, the `tN` search prints), and/or `--uuid <U>`. The transcript is "@
        + file + " — csift never dumps a whole transcript into your context."@
}

/// Choose the fetch mode once the transcript is resolved: `--branch-points` first; a
/// request naming no line, uuid or turn is refused (a whole transcript is never dumped);
/// then raw or rendered.
pub fn show_mode(req: &ShowRequest, file_display: &str) -> (r: Result<ShowMode, String>)
    ensures
        req.branch_points ==> r == Ok::<ShowMode, String>(ShowMode::BranchPoints),
        !req.branch_points && req.parsed@.len() == 0 && req.uuids@.len() == 0 && req.turn is None
            ==> (r matches Err(m) && m@ == needs_address_message(file_display@)),
        !req.branch_points && !(req.parsed@.len() == 0 && req.uuids@.len() == 0 && req.turn is None)
            ==> r == Ok::<ShowMode, String>(if req.raw { ShowMode::Raw } else { ShowMode::Rendered }),
{
    if req.branch_points {
        return Ok(ShowMode::BranchPoints);
    }
    if req.parsed.len() == 0 && req.uuids.len() == 0 && req.turn.is_none() {
        let mut m = String::new();
        m.append("show needs an address: `--line <N|A..B|N..|-k>` (1-based jsonl lines, the `Lnnnn` other csift commands print), `--turn <N|A..B|-k>` (0-based turn index, the `tN` search prints), and/or `--uuid <U>`. The transcript is ");
        m.append(file_display);
        m.append(" — csift never dumps a whole transcript into your context.");
        return Err(m);
    }
    if req.raw { Ok(ShowMode::Raw) } else { Ok(ShowMode::Rendered) }
}

} // verus!
