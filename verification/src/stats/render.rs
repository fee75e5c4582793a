//! The text form of `stats`: per-session blocks, the scope TOTAL block and the footer,
//! as lines. Censuses print count-descending, then by key.

use vstd::prelude::*;
use crate::chars::push_decimal;
use crate::chars::decimal;
use crate::durations::{iso_millis, spec_fmt_secs, fmt_secs};
use crate::model::join;
use crate::stats::counts::lex_lt;
use crate::stats::order::{ins, isort, lemma_ins_at, lemma_isort_len};
use crate::stats::session::SessionStats;
use crate::stats::tokens::TokenSums;
use crate::subagent::str_le;
use crate::chars::str_eq;

verus! {

/// The whole seconds from one RFC 3339 instant to another, truncated toward zero.
pub uninterp spec fn whole_seconds_between(from: Seq<char>, to: Seq<char>) -> int;

/// `(to - from).get_seconds()` on two timestamps parsed by jiff (`Timestamp::since` in
/// whole seconds; the span's seconds field). The value is named
/// [`whole_seconds_between`]; the result is `Some` exactly when both strings parse,
/// which is what [`iso_millis`] being `Some` records.
#[verifier::external_body]
fn seconds_between(from: &str, to: &str) -> (r: Option<i64>)
    ensures
        r is Some <==> (iso_millis(from@) is Some && iso_millis(to@) is Some),
        r matches Some(s) ==> s as int == whole_seconds_between(from@, to@),
{
    let a = from.parse::<jiff::Timestamp>().ok()?;
    let b = to.parse::<jiff::Timestamp>().ok()?;
    Some((b - a).get_seconds())
}

/// The span's length: `-` unless both ends parse, else the non-negative whole seconds
/// between them, compact.
pub open spec fn span_label(first: Seq<char>, last: Seq<char>) -> Seq<char> {
    if iso_millis(first) is Some && iso_millis(last) is Some {
        let s = whole_seconds_between(first, last);
        spec_fmt_secs(if s > 0 { s as nat } else { 0 })
    } else {
        "-"@
    }
}

/// See [`span_label`].
pub fn duration_label(first: &str, last: &str) -> (out: String)
    ensures
        out@ == span_label(first@, last@),
{
    match seconds_between(first, last) {
        Some(s) => {
            let secs: u64 = if s > 0 { s as u64 } else { 0 };
            fmt_secs(secs)
        },
        None => "-".to_string(),
    }
}

pub open spec fn entry_views(e: Seq<(String, usize)>) -> Seq<(Seq<char>, usize)> {
    e.map_values(|p: (String, usize)| (p.0@, p.1))
}

/// Count-descending, then key order.
pub open spec fn count_first(a: (Seq<char>, usize), b: (Seq<char>, usize)) -> bool {
    a.1 > b.1 || (a.1 == b.1 && lex_lt(a.0, b.0))
}

/// A census in print order: count-descending, then key order (stable).
pub fn by_count(e: &Vec<(String, usize)>) -> (out: Vec<(String, usize)>)
    ensures
        entry_views(out@) == isort(entry_views(e@), |a: (Seq<char>, usize), b: (Seq<char>, usize)| count_first(a, b)),
{
    let ghost lt = |a: (Seq<char>, usize), b: (Seq<char>, usize)| count_first(a, b);
    let ghost input = entry_views(e@);
    let mut out: Vec<(String, usize)> = Vec::new();
    let mut i: usize = 0;
    while i < e.len()
        invariant
            i <= e@.len(),
            input == entry_views(e@),
            lt == |a: (Seq<char>, usize), b: (Seq<char>, usize)| count_first(a, b),
            entry_views(out@) == isort(input.take(i as int), lt),
        decreases e.len() - i,
    {
        let key = e[i].0.clone();
        let n = e[i].1;
        let ghost x = (key@, n);
        assert(x == input[i as int]);
        let mut p: usize = 0;
        while p < out.len() && !(n > out[p].1 || (n == out[p].1 && str_le(key.as_str(), out[p].0.as_str())
            && !str_eq(key.as_str(), out[p].0.as_str())))
            invariant
                p <= out@.len(),
                x == (key@, n),
                lt == |a: (Seq<char>, usize), b: (Seq<char>, usize)| count_first(a, b),
                forall|q: int| 0 <= q < p ==> !lt(x, #[trigger] entry_views(out@)[q]),
            decreases out.len() - p,
        {
            p = p + 1;
        }
        proof {
            lemma_ins_at(entry_views(out@), x, lt, p as int);
            assert(input.take(i + 1).drop_last() =~= input.take(i as int));
        }
        let ghost before = out@;
        out.insert(p, (key, n));
        proof {
            assert(entry_views(out@) =~= entry_views(before).take(p as int).push(x) + entry_views(before).skip(p as int));
        }
        i = i + 1;
    }
    assert(input.take(e@.len() as int) =~= input);
    out
}

/// One census entry as printed: `key×count`.
pub open spec fn entry_text(p: (Seq<char>, usize)) -> Seq<char> {
    p.0 + "×"@ + decimal(p.1 as nat)
}

/// A census line's body: the entries joined with ` · `.
pub open spec fn census_text(e: Seq<(Seq<char>, usize)>) -> Seq<char> {
    join(e.map_values(|p: (Seq<char>, usize)| entry_text(p)), " · "@)
}

proof fn lemma_join_step(parts: Seq<Seq<char>>, sep: Seq<char>, n: int)
    requires
        0 < n < parts.len(),
    ensures
        join(parts.take(n + 1), sep) == join(parts.take(n), sep) + sep + parts[n],
{
    assert(parts.take(n + 1).drop_last() =~= parts.take(n));
}

/// Print the entries (in the order given) as `key×count` joined with ` · `.
pub fn census_line_text(e: &Vec<(String, usize)>) -> (out: String)
    ensures
        out@ == census_text(entry_views(e@)),
{
    let ghost parts = entry_views(e@).map_values(|p: (Seq<char>, usize)| entry_text(p));
    let mut out = String::new();
    let mut i: usize = 0;
    while i < e.len()
        invariant
            i <= e@.len(),
            parts == entry_views(e@).map_values(|p: (Seq<char>, usize)| entry_text(p)),
            out@ == join(parts.take(i as int), " · "@),
        decreases e.len() - i,
    {
        let ghost before = out@;
        if i > 0 {
            out.append(" · ");
        }
        out.append(e[i].0.as_str());
        out.append("×");
        push_decimal(&mut out, e[i].1 as u64);
        proof {
            assert(parts[i as int] == entry_text((e@[i as int].0@, e@[i as int].1)));
            if i > 0 {
                lemma_join_step(parts, " · "@, i as int);
                assert(out@ =~= before + " · "@ + parts[i as int]);
            } else {
                assert(parts.take(1) =~= seq![parts[0]]);
                assert(out@ =~= parts[0]);
            }
        }
        i = i + 1;
    }
    assert(parts.take(e@.len() as int) =~= parts);
    out
}

/// A count as printed.
pub open spec fn dec(n: int) -> Seq<char> {
    decimal(n as nat)
}

/// The note for skipped malformed lines.
pub open spec fn malformed_note(n: int) -> Seq<char> {
    dec(n) + " malformed line"@ + (if n == 1 { ""@ } else { "s"@ }) + " skipped"@
}

/// See [`malformed_note`].
pub fn malformed_note_text(n: usize) -> (out: String)
    ensures
        out@ == malformed_note(n as int),
{
    let mut out = String::new();
    push_decimal(&mut out, n as u64);
    out.append(" malformed line");
    if n != 1 {
        out.append("s");
    }
    out.append(" skipped");
    proof {
        reveal_strlit("");
    }
    assert(out@ =~= malformed_note(n as int));
    out
}

/// A session block's first line.
pub open spec fn header_line(r: SessionStats) -> Seq<char> {
    if r.is_subagent {
        "SUBAGENT "@ + r.session_id@ + "  ·  parent SESSION "@ + r.parent_session_id@
    } else {
        "SESSION "@ + r.session_id@
    }
}

/// The records line of a block.
pub open spec fn counts_line(indent: Seq<char>, lines: Option<int>, user: int, agent: int, turns: int, compactions: int) -> Seq<char> {
    indent + match lines {
        Some(n) => "lines "@ + dec(n) + " · records "@,
        None => "records "@,
    } + dec(user) + " user + "@ + dec(agent) + " assistant · turns "@ + dec(turns) + " · compactions "@ + dec(compactions)
}

/// The chain line: only when something was abandoned or replayed.
pub open spec fn chain_line(abandoned: int, rewound: int, replays: int) -> Seq<Seq<char>> {
    if abandoned > 0 || replays > 0 {
        seq!["  chain  abandoned turns "@ + dec(abandoned) + " ("@ + dec(rewound) + " rewound) · replay copy lines "@
            + dec(replays) + "  (whole-file facts, outside `turns`)"@]
    } else {
        seq![]
    }
}

/// One model's token line.
pub open spec fn token_line(model: Seq<char>, t: TokenSums) -> Seq<char> {
    "  tokens "@ + model + ": in "@ + dec(t.input as int) + " · out "@ + dec(t.output as int) + " · cache-read "@
        + dec(t.cache_read as int) + " · cache-write "@ + dec(t.cache_creation as int)
}

/// A census in print order.
pub open spec fn print_order(e: Seq<(String, usize)>) -> Seq<(Seq<char>, usize)> {
    isort(entry_views(e), |a: (Seq<char>, usize), b: (Seq<char>, usize)| count_first(a, b))
}

/// `seq![line]` when `cond`, else nothing.
pub open spec fn line_if(cond: bool, line: Seq<char>) -> Seq<Seq<char>> {
    if cond { seq![line] } else { seq![] }
}

/// The lines of one session's block; `first_shown`/`last_shown` are the span's ends as
/// displayed.
pub open spec fn session_block(r: SessionStats, first_shown: Seq<char>, last_shown: Seq<char>) -> Seq<Seq<char>> {
    seq![header_line(r), counts_line("  "@, Some(r.lines as int), r.user_records as int, r.assistant_records as int,
        r.turns as int, r.compactions as int)]
        + line_if(r.line_types@.len() > 0, "  types  "@ + census_text(print_order(r.line_types@)))
        + chain_line(r.abandoned_turns as int, r.rewound_turns as int, r.replay_copies as int)
        + match (r.first_utc, r.last_utc) {
            (Some(f), Some(l)) => seq!["  span   "@ + first_shown + "  →  "@ + last_shown + "  ("@ + span_label(f@, l@) + ")"@],
            _ => seq![],
        }
        + r.tokens@.map_values(|p: (String, TokenSums)| token_line(p.0@, p.1))
        + line_if(r.narration_blocks@.len() > 0, "  narration blocks "@ + census_text(print_order(r.narration_blocks@))
            + "  (API summaries, agent.thinking.narration; token split unavailable)"@)
        + line_if(r.unknown_thinking_tags > 0, "  unknown thinking-signature tags "@ + dec(r.unknown_thinking_tags as int)
            + "  (neither thinking nor narration - a new API tag value)"@)
        + line_if(r.tools@.len() > 0, "  tools  "@ + census_text(print_order(r.tools@)))
        + line_if(r.skipped_lines > 0, "  ("@ + malformed_note(r.skipped_lines as int) + ")"@)
        + seq![""@]
}

fn counts_text(indent: &str, lines: Option<usize>, user: usize, agent: usize, turns: usize, compactions: usize) -> (out: String)
    ensures
        out@ == counts_line(indent@, match lines { Some(n) => Some(n as int), None => None }, user as int, agent as int,
            turns as int, compactions as int),
{
    let mut out = String::new();
    out.append(indent);
    match lines {
        Some(n) => {
            out.append("lines ");
            push_decimal(&mut out, n as u64);
            out.append(" · records ");
        },
        None => {
            out.append("records ");
        },
    }
    push_decimal(&mut out, user as u64);
    out.append(" user + ");
    push_decimal(&mut out, agent as u64);
    out.append(" assistant · turns ");
    push_decimal(&mut out, turns as u64);
    out.append(" · compactions ");
    push_decimal(&mut out, compactions as u64);
    assert(out@ =~= counts_line(indent@, match lines { Some(n) => Some(n as int), None => None }, user as int, agent as int,
        turns as int, compactions as int));
    out
}

fn push_chain_line(v: &mut Vec<String>, abandoned: usize, rewound: usize, replays: usize)
    ensures
        final(v)@.map_values(|s: String| s@) == old(v)@.map_values(|s: String| s@)
            + chain_line(abandoned as int, rewound as int, replays as int),
{
    if abandoned > 0 || replays > 0 {
        let mut out = String::new();
        out.append("  chain  abandoned turns ");
        push_decimal(&mut out, abandoned as u64);
        out.append(" (");
        push_decimal(&mut out, rewound as u64);
        out.append(" rewound) · replay copy lines ");
        push_decimal(&mut out, replays as u64);
        out.append("  (whole-file facts, outside `turns`)");
        let ghost t = out@;
        v.push(out);
        assert(v@.map_values(|s: String| s@) =~= old(v)@.map_values(|s: String| s@) + seq![t]);
    } else {
        assert(v@.map_values(|s: String| s@) =~= old(v)@.map_values(|s: String| s@) + seq![]);
    }
}

fn token_text(model: &str, t: TokenSums) -> (out: String)
    ensures
        out@ == token_line(model@, t),
{
    let mut out = String::new();
    out.append("  tokens ");
    out.append(model);
    out.append(": in ");
    push_decimal(&mut out, t.input);
    out.append(" · out ");
    push_decimal(&mut out, t.output);
    out.append(" · cache-read ");
    push_decimal(&mut out, t.cache_read);
    out.append(" · cache-write ");
    push_decimal(&mut out, t.cache_creation);
    assert(out@ =~= token_line(model@, t));
    out
}

fn push_token_lines(v: &mut Vec<String>, tokens: &Vec<(String, TokenSums)>)
    ensures
        final(v)@.map_values(|s: String| s@) == old(v)@.map_values(|s: String| s@)
            + tokens@.map_values(|p: (String, TokenSums)| token_line(p.0@, p.1)),
{
    let ghost base = v@.map_values(|s: String| s@);
    let ghost all = tokens@.map_values(|p: (String, TokenSums)| token_line(p.0@, p.1));
    let mut i: usize = 0;
    while i < tokens.len()
        invariant
            i <= tokens@.len(),
            all == tokens@.map_values(|p: (String, TokenSums)| token_line(p.0@, p.1)),
            v@.map_values(|s: String| s@) == base + all.take(i as int),
        decreases tokens.len() - i,
    {
        let line = token_text(tokens[i].0.as_str(), tokens[i].1);
        let ghost t = line@;
        let ghost before = v@.map_values(|s: String| s@);
        v.push(line);
        assert(v@.map_values(|s: String| s@) =~= before.push(t));
        assert(all.take(i + 1) =~= all.take(i as int).push(all[i as int]));
        i = i + 1;
    }
    assert(all.take(tokens@.len() as int) =~= all);
}

/// Push `prefix + text + suffix` when `cond`.
fn push_line_if(v: &mut Vec<String>, cond: bool, prefix: &str, text: &str, suffix: &str)
    ensures
        final(v)@.map_values(|s: String| s@) == old(v)@.map_values(|s: String| s@) + line_if(cond, prefix@ + text@ + suffix@),
{
    if cond {
        let mut out = String::new();
        out.append(prefix);
        out.append(text);
        out.append(suffix);
        let ghost t = out@;
        v.push(out);
        assert(v@.map_values(|s: String| s@) =~= old(v)@.map_values(|s: String| s@) + seq![prefix@ + text@ + suffix@]);
    } else {
        assert(v@.map_values(|s: String| s@) =~= old(v)@.map_values(|s: String| s@) + seq![]);
    }
}

fn census_print_text(e: &Vec<(String, usize)>) -> (out: String)
    ensures
        out@ == census_text(print_order(e@)),
{
    let sorted = by_count(e);
    census_line_text(&sorted)
}

/// The lines of one session's block (see [`session_block`]).
pub fn session_lines(r: &SessionStats, first_shown: &str, last_shown: &str) -> (out: Vec<String>)
    ensures
        out@.map_values(|s: String| s@) == session_block(*r, first_shown@, last_shown@),
{
    let mut v: Vec<String> = Vec::new();
    let header = if r.is_subagent {
        let mut h = String::new();
        h.append("SUBAGENT ");
        h.append(r.session_id.as_str());
        h.append("  ·  parent SESSION ");
        h.append(r.parent_session_id.as_str());
        h
    } else {
        let mut h = String::new();
        h.append("SESSION ");
        h.append(r.session_id.as_str());
        h
    };
    assert(header@ =~= header_line(*r));
    v.push(header);
    v.push(counts_text("  ", Some(r.lines), r.user_records, r.assistant_records, r.turns, r.compactions));
    let ghost l0 = v@.map_values(|s: String| s@);
    assert(l0 =~= seq![header_line(*r), counts_line("  "@, Some(r.lines as int), r.user_records as int,
        r.assistant_records as int, r.turns as int, r.compactions as int)]);
    let types = if r.line_types.len() > 0 { census_print_text(&r.line_types) } else { String::new() };
    push_line_if(&mut v, r.line_types.len() > 0, "  types  ", types.as_str(), "");
    push_chain_line(&mut v, r.abandoned_turns, r.rewound_turns, r.replay_copies);
    let ghost l1 = v@.map_values(|s: String| s@);
    match (&r.first_utc, &r.last_utc) {
        (Some(f), Some(l)) => {
            let mut line = String::new();
            line.append("  span   ");
            line.append(first_shown);
            line.append("  →  ");
            line.append(last_shown);
            line.append("  (");
            let d = duration_label(f.as_str(), l.as_str());
            line.append(d.as_str());
            line.append(")");
            let ghost t = line@;
            v.push(line);
            assert(v@.map_values(|s: String| s@) =~= l1 + seq![t]);
        },
        _ => {},
    }
    push_token_lines(&mut v, &r.tokens);
    let narr = if r.narration_blocks.len() > 0 { census_print_text(&r.narration_blocks) } else { String::new() };
    push_line_if(&mut v, r.narration_blocks.len() > 0, "  narration blocks ", narr.as_str(),
        "  (API summaries, agent.thinking.narration; token split unavailable)");
    let mut unk = String::new();
    push_decimal(&mut unk, r.unknown_thinking_tags as u64);
    push_line_if(&mut v, r.unknown_thinking_tags > 0, "  unknown thinking-signature tags ", unk.as_str(),
        "  (neither thinking nor narration - a new API tag value)");
    let tools = if r.tools.len() > 0 { census_print_text(&r.tools) } else { String::new() };
    push_line_if(&mut v, r.tools.len() > 0, "  tools  ", tools.as_str(), "");
    let note = malformed_note_text(r.skipped_lines);
    push_line_if(&mut v, r.skipped_lines > 0, "  (", note.as_str(), ")");
    let ghost l2 = v@.map_values(|s: String| s@);
    let blank = String::new();
    proof {
        reveal_strlit("");
        assert(""@ =~= Seq::<char>::empty());
        assert(blank@ == ""@);
    }
    v.push(blank);
    proof {
        assert(v@.map_values(|s: String| s@) =~= l2 + seq![""@]);
        assert(v@.map_values(|s: String| s@) =~= session_block(*r, first_shown@, last_shown@));
    }
    v
}

/// A per-session number the TOTAL block adds up.
#[derive(Debug, Clone, Copy, PartialEq, Eq, Structural)]
pub enum Field {
    User,
    Assistant,
    Turns,
    Compactions,
    Abandoned,
    Rewound,
    Replays,
    Skipped,
}

pub open spec fn field_of(r: SessionStats, f: Field) -> int {
    match f {
        Field::User => r.user_records as int,
        Field::Assistant => r.assistant_records as int,
        Field::Turns => r.turns as int,
        Field::Compactions => r.compactions as int,
        Field::Abandoned => r.abandoned_turns as int,
        Field::Rewound => r.rewound_turns as int,
        Field::Replays => r.replay_copies as int,
        Field::Skipped => r.skipped_lines as int,
    }
}

/// The field summed over the rows.
pub open spec fn field_sum(rows: Seq<SessionStats>, f: Field) -> int
    decreases rows.len(),
{
    if rows.len() == 0 {
        0
    } else {
        field_sum(rows.drop_last(), f) + field_of(rows.last(), f)
    }
}

/// `min(a, usize::MAX)`.
pub open spec fn capped(a: int) -> int {
    if a > usize::MAX { usize::MAX as int } else { a }
}

proof fn lemma_field_sum_nonneg(rows: Seq<SessionStats>, f: Field)
    ensures
        field_sum(rows, f) >= 0,
    decreases rows.len(),
{
    if rows.len() > 0 {
        lemma_field_sum_nonneg(rows.drop_last(), f);
    }
}

/// The field summed over the rows, held at `usize::MAX`.
pub fn sum_field(rows: &Vec<SessionStats>, f: Field) -> (n: usize)
    ensures
        n == capped(field_sum(rows@, f)),
{
    let mut n: usize = 0;
    let mut i: usize = 0;
    while i < rows.len()
        invariant
            i <= rows@.len(),
            n == capped(field_sum(rows@.take(i as int), f)),
        decreases rows.len() - i,
    {
        proof {
            assert(rows@.take(i + 1).drop_last() =~= rows@.take(i as int));
            lemma_field_sum_nonneg(rows@.take(i as int), f);
        }
        let r = &rows[i];
        let x = match f {
            Field::User => r.user_records,
            Field::Assistant => r.assistant_records,
            Field::Turns => r.turns,
            Field::Compactions => r.compactions,
            Field::Abandoned => r.abandoned_turns,
            Field::Rewound => r.rewound_turns,
            Field::Replays => r.replay_copies,
            Field::Skipped => r.skipped_lines,
        };
        n = n.saturating_add(x);
        i = i + 1;
    }
    assert(rows@.take(rows@.len() as int) =~= rows@);
    n
}

/// How many tool names the TOTAL block lists before summarizing the rest.
pub const TOTAL_TOOLS_SHOWN: usize = 15;

/// The first `n` elements (all of them when there are fewer).
pub open spec fn first_n<T>(s: Seq<T>, n: int) -> Seq<T> {
    if s.len() <= n { s } else { s.take(n) }
}

/// The TOTAL tools line's tail: how many more tools there were.
pub open spec fn more_tools(n: int) -> Seq<char> {
    if n > 15 { " · (+"@ + dec(n - 15) + " more tools)"@ } else { ""@ }
}

/// The scope TOTAL block (only for more than one session), given the merged censuses
/// and token sums.
pub open spec fn total_block(rows: Seq<SessionStats>, top: int, sub: int, types: Seq<(String, usize)>,
    tools: Seq<(String, usize)>, narration: Seq<(String, usize)>, tokens: Seq<(String, TokenSums)>) -> Seq<Seq<char>>
{
    if rows.len() <= 1 {
        seq![]
    } else {
        seq!["TOTAL  "@ + dec(rows.len() as int) + " sessions ("@ + dec(top) + " top-level + "@ + dec(sub) + " subagent)"@]
            + line_if(types.len() > 0, "  types  "@ + census_text(print_order(types)))
            + seq![counts_line("  "@, None, capped(field_sum(rows, Field::User)), capped(field_sum(rows, Field::Assistant)),
                capped(field_sum(rows, Field::Turns)), capped(field_sum(rows, Field::Compactions)))]
            + chain_line(capped(field_sum(rows, Field::Abandoned)), capped(field_sum(rows, Field::Rewound)),
                capped(field_sum(rows, Field::Replays)))
            + tokens.map_values(|p: (String, TokenSums)| token_line(p.0@, p.1))
            + line_if(narration.len() > 0, "  narration blocks "@ + census_text(print_order(narration)))
            + line_if(tools.len() > 0, "  tools  "@ + census_text(first_n(print_order(tools), 15)) + more_tools(tools.len() as int))
    }
}

/// The lines of the TOTAL block (see [`total_block`]).
pub fn total_lines(rows: &Vec<SessionStats>, top: usize, sub: usize, types: &Vec<(String, usize)>,
    tools: &Vec<(String, usize)>, narration: &Vec<(String, usize)>, tokens: &Vec<(String, TokenSums)>) -> (out: Vec<String>)
    ensures
        out@.map_values(|s: String| s@) == total_block(rows@, top as int, sub as int, types@, tools@, narration@, tokens@),
{
    let mut v: Vec<String> = Vec::new();
    if rows.len() <= 1 {
        assert(v@.map_values(|s: String| s@) =~= Seq::<Seq<char>>::empty());
        return v;
    }
    let mut head = String::new();
    head.append("TOTAL  ");
    push_decimal(&mut head, rows.len() as u64);
    head.append(" sessions (");
    push_decimal(&mut head, top as u64);
    head.append(" top-level + ");
    push_decimal(&mut head, sub as u64);
    head.append(" subagent)");
    let ghost h = head@;
    assert(h =~= "TOTAL  "@ + dec(rows@.len() as int) + " sessions ("@ + dec(top as int) + " top-level + "@ + dec(sub as int) + " subagent)"@);
    v.push(head);
    assert(v@.map_values(|s: String| s@) =~= seq![h]);
    let types_text = if types.len() > 0 { census_print_text(types) } else { String::new() };
    push_line_if(&mut v, types.len() > 0, "  types  ", types_text.as_str(), "");
    let ghost g2 = v@.map_values(|s: String| s@);
    let counts = counts_text("  ", None, sum_field(rows, Field::User), sum_field(rows, Field::Assistant),
        sum_field(rows, Field::Turns), sum_field(rows, Field::Compactions));
    let ghost c = counts@;
    let ghost before_counts = v@.map_values(|s: String| s@);
    v.push(counts);
    assert(v@.map_values(|s: String| s@) =~= before_counts + seq![c]);
    let ghost g3 = v@.map_values(|s: String| s@);
    push_chain_line(&mut v, sum_field(rows, Field::Abandoned), sum_field(rows, Field::Rewound),
        sum_field(rows, Field::Replays));
    let ghost g4 = v@.map_values(|s: String| s@);
    push_token_lines(&mut v, tokens);
    let ghost g5 = v@.map_values(|s: String| s@);
    let narr_text = if narration.len() > 0 { census_print_text(narration) } else { String::new() };
    push_line_if(&mut v, narration.len() > 0, "  narration blocks ", narr_text.as_str(), "");
    let ghost g6 = v@.map_values(|s: String| s@);
    let mut tools_text = String::new();
    if tools.len() > 0 {
        let mut shown = by_count(tools);
        proof {
            lemma_isort_len(entry_views(tools@), |a: (Seq<char>, usize), b: (Seq<char>, usize)| count_first(a, b));
        }
        let total = shown.len();
        let ghost full = entry_views(shown@);
        if shown.len() > TOTAL_TOOLS_SHOWN {
            shown.truncate(TOTAL_TOOLS_SHOWN);
        }
        assert(entry_views(shown@) =~= first_n(full, 15));
        tools_text = census_line_text(&shown);
        if total > TOTAL_TOOLS_SHOWN {
            tools_text.append(" · (+");
            push_decimal(&mut tools_text, (total - TOTAL_TOOLS_SHOWN) as u64);
            tools_text.append(" more tools)");
        }
        proof {
            reveal_strlit("");
        }
        assert(tools_text@ =~= census_text(first_n(print_order(tools@), 15)) + more_tools(tools@.len() as int));
    }
    push_line_if(&mut v, tools.len() > 0, "  tools  ", tools_text.as_str(), "");
    proof {
        reveal_strlit("");
        assert(""@ =~= Seq::<char>::empty());
        assert("  types  "@ + types_text@ + ""@ =~= "  types  "@ + types_text@);
        assert("  tools  "@ + tools_text@ + ""@ =~= "  tools  "@ + tools_text@);
        assert("  narration blocks "@ + narr_text@ + ""@ =~= "  narration blocks "@ + narr_text@);
        let tb = total_block(rows@, top as int, sub as int, types@, tools@, narration@, tokens@);
        let p1 = seq![h];
        let p2 = line_if(types@.len() > 0, "  types  "@ + census_text(print_order(types@)));
        assert(g2 =~= p1 + p2);
        assert(g3 =~= p1 + p2 + seq![c]);
        let p3 = seq![counts_line("  "@, None, capped(field_sum(rows@, Field::User)), capped(field_sum(rows@, Field::Assistant)),
                capped(field_sum(rows@, Field::Turns)), capped(field_sum(rows@, Field::Compactions)))];
        assert(seq![c] =~= p3);
        let p4 = chain_line(capped(field_sum(rows@, Field::Abandoned)), capped(field_sum(rows@, Field::Rewound)),
                capped(field_sum(rows@, Field::Replays)));
        assert(g4 =~= p1 + p2 + p3 + p4);
        let p5 = tokens@.map_values(|p: (String, TokenSums)| token_line(p.0@, p.1));
        assert(g5 =~= p1 + p2 + p3 + p4 + p5);
        let p6 = line_if(narration@.len() > 0, "  narration blocks "@ + census_text(print_order(narration@)));
        assert(g6 =~= p1 + p2 + p3 + p4 + p5 + p6);
        let p7 = line_if(tools@.len() > 0, "  tools  "@ + census_text(first_n(print_order(tools@), 15)) + more_tools(tools@.len() as int));
        if tools@.len() > 0 {
            assert("  tools  "@ + tools_text@ + ""@ =~= "  tools  "@ + census_text(first_n(print_order(tools@), 15))
                + more_tools(tools@.len() as int));
        }
        assert(v@.map_values(|s: String| s@) =~= p1 + p2 + p3 + p4 + p5 + p6 + p7);
        assert(v@.map_values(|s: String| s@) =~= total_block(rows@, top as int, sub as int, types@, tools@, narration@, tokens@));
    }
    v
}

/// The closing lines: the scope's malformed-line note and the cap's report.
pub open spec fn footer_block(rows: Seq<SessionStats>, dropped: int) -> Seq<Seq<char>> {
    line_if(capped(field_sum(rows, Field::Skipped)) > 0, "("@ + malformed_note(capped(field_sum(rows, Field::Skipped))) + ")"@)
        + line_if(dropped > 0, "… (+"@ + dec(dropped)
            + " more session(s) not shown — the most recently active are aggregated above; narrow with a target or --since, or raise --max-count)"@)
}

/// See [`footer_block`].
pub fn footer_lines(rows: &Vec<SessionStats>, dropped: usize) -> (out: Vec<String>)
    ensures
        out@.map_values(|s: String| s@) == footer_block(rows@, dropped as int),
{
    let mut v: Vec<String> = Vec::new();
    let skipped = sum_field(rows, Field::Skipped);
    let note = malformed_note_text(skipped);
    push_line_if(&mut v, skipped > 0, "(", note.as_str(), ")");
    let mut n = String::new();
    push_decimal(&mut n, dropped as u64);
    push_line_if(&mut v, dropped > 0, "… (+", n.as_str(),
        " more session(s) not shown — the most recently active are aggregated above; narrow with a target or --since, or raise --max-count)");
    assert(v@.map_values(|s: String| s@) =~= footer_block(rows@, dropped as int));
    v
}

} // verus!
