//! The text projection of `list`: one block per session row, then the cap's note.

use vstd::prelude::*;
use crate::model::{opt_view, join};
use crate::chars::push_decimal;
use crate::chars::decimal;
use crate::search::text_out::{line_views, push_line};
use crate::session::{truncate_excerpt, MessagePreview, SessionSummary, EXCERPT_MAX};
use crate::stats::render::{malformed_note, malformed_note_text};
use crate::text::truncated;
use crate::timefmt::{em_dash, format_timestamp};

verus! {

/// The identity line of a row: a subagent row names its re-feedable parent.
pub open spec fn identity_line(s: SessionSummary) -> Seq<char> {
    if s.is_subagent {
        "SUBAGENT  "@ + s.session_id@ + "  \u{b7}  parent SESSION "@ + s.parent_session_id@
    } else {
        "SESSION  "@ + s.session_id@
    }
}

/// The branch and agent version, as `branch B, CC V` (either part absent when unknown).
pub open spec fn meta_text(s: SessionSummary) -> Seq<char> {
    let b = match s.git_branch { Some(b) => "branch "@ + b@, None => Seq::empty() };
    let v = match s.version { Some(v) => "CC "@ + v@, None => Seq::empty() };
    if b.len() > 0 && v.len() > 0 { b + ", "@ + v } else { b + v }
}

pub open spec fn cwd_line(s: SessionSummary) -> Seq<char> {
    let cwd = match s.cwd { Some(c) => c@, None => "<unknown cwd>"@ };
    let meta = meta_text(s);
    if meta.len() == 0 { "  cwd      "@ + cwd } else { "  cwd      "@ + cwd + "   ("@ + meta + ")"@ }
}

/// A preview: its label and rendered time, then its excerpt; `—` when there is none.
pub open spec fn preview_lines(label: Seq<char>, p: Option<MessagePreview>, stamp: Seq<char>) -> Seq<Seq<char>> {
    match p {
        Some(p) => seq!["  "@ + label + "  "@ + stamp, "           "@ + p.excerpt@],
        None => seq!["  "@ + label + "  \u{2014}"@],
    }
}

pub open spec fn pending_lines(s: SessionSummary) -> Seq<Seq<char>> {
    if s.pending_elicitations@.len() == 0 {
        seq![]
    } else {
        seq!["  pending  with elicitation sidecar"@] + s.pending_elicitations@.map_values(|p: String|
            "           \u{23f3} "@ + truncated(p@, EXCERPT_MAX as nat))
    }
}

pub open spec fn note_lines(s: SessionSummary) -> Seq<Seq<char>> {
    if s.skipped_lines > 0 {
        seq!["  note     "@ + malformed_note(s.skipped_lines as int)
            + " (among the head/tail lines read \u{2014} full census: csift stats)"@]
    } else {
        seq![]
    }
}

/// The block of one row; `stamps` are the rendered times of its three previews.
pub open spec fn row_lines(s: SessionSummary, stamps: (Seq<char>, Seq<char>, Seq<char>)) -> Seq<Seq<char>> {
    seq![identity_line(s), cwd_line(s)]
        + preview_lines("first \u{25c2}"@, s.first_user, stamps.0)
        + preview_lines("last \u{25c2} "@, s.last_user, stamps.1)
        + preview_lines("last \u{25b8} "@, s.last_agent, stamps.2)
        + pending_lines(s) + note_lines(s)
}

/// The blocks of the first `n` rows, separated by blank lines.
pub open spec fn rows_lines(ss: Seq<SessionSummary>, stamps: Seq<(Seq<char>, Seq<char>, Seq<char>)>, n: int) -> Seq<Seq<char>>
    decreases n,
{
    if n <= 0 {
        seq![]
    } else {
        rows_lines(ss, stamps, n - 1) + (if n > 1 { seq![Seq::<char>::empty()] } else { seq![] })
            + row_lines(ss[n - 1], stamps[n - 1])
    }
}

pub open spec fn dropped_note(dropped: usize) -> Seq<char> {
    "\u{2026} (+"@ + decimal(dropped as nat)
        + " more session(s) not shown \u{2014} the most recently active are listed; narrow with a target or --since, or raise --max-count)"@
}

/// The text of `list`: `no sessions found`, or each row's block and the cap's note.
pub open spec fn spec_list_text(ss: Seq<SessionSummary>, dropped: usize, stamps: Seq<(Seq<char>, Seq<char>, Seq<char>)>) -> Seq<Seq<char>> {
    if ss.len() == 0 {
        seq!["no sessions found"@]
    } else {
        rows_lines(ss, stamps, ss.len() as int)
            + (if dropped > 0 { seq![Seq::<char>::empty(), dropped_note(dropped)] } else { seq![] })
    }
}

pub open spec fn stamp_views(v: Seq<(String, String, String)>) -> Seq<(Seq<char>, Seq<char>, Seq<char>)> {
    v.map_values(|t: (String, String, String)| (t.0@, t.1@, t.2@))
}

fn push_preview(out: &mut Vec<String>, label: &str, p: &Option<MessagePreview>, stamp: &str)
    ensures
        line_views(final(out)@) == line_views(old(out)@) + preview_lines(label@, *p, stamp@),
{
    let ghost base = line_views(out@);
    proof {
        reveal_strlit("  ");
        reveal_strlit("  \u{2014}");
        reveal_strlit("           ");
    }
    match p {
        Some(p) => {
            let mut a = String::new();
            a.append("  ");
            a.append(label);
            a.append("  ");
            a.append(stamp);
            push_line(out, a);
            let mut b = String::new();
            b.append("           ");
            b.append(p.excerpt.as_str());
            push_line(out, b);
        },
        None => {
            let mut a = String::new();
            a.append("  ");
            a.append(label);
            a.append("  \u{2014}");
            push_line(out, a);
        },
    }
    assert(line_views(out@) =~= base + preview_lines(label@, *p, stamp@));
}

fn identity_text(s: &SessionSummary) -> (id: String)
    ensures
        id@ == identity_line(*s),
{
    proof {
        reveal_strlit("SUBAGENT  ");
        reveal_strlit("  \u{b7}  parent SESSION ");
        reveal_strlit("SESSION  ");
        reveal_strlit("");
    }
    let mut id = String::new();
    if s.is_subagent {
        id.append("SUBAGENT  ");
        id.append(s.session_id.as_str());
        id.append("  \u{b7}  parent SESSION ");
        id.append(s.parent_session_id.as_str());
    } else {
        id.append("SESSION  ");
        id.append(s.session_id.as_str());
    }
    assert(id@ =~= identity_line(*s));
    id
}

fn cwd_text(s: &SessionSummary) -> (c: String)
    ensures
        c@ == cwd_line(*s),
{
    proof {
        reveal_strlit("branch ");
        reveal_strlit("CC ");
        reveal_strlit(", ");
        reveal_strlit("<unknown cwd>");
        reveal_strlit("  cwd      ");
        reveal_strlit("   (");
        reveal_strlit(")");
        reveal_strlit("");
    }
    let mut meta = String::new();
    if let Some(b) = &s.git_branch {
        meta.append("branch ");
        meta.append(b.as_str());
    }
    let has_branch = s.git_branch.is_some();
    if let Some(v) = &s.version {
        if has_branch {
            meta.append(", ");
        }
        meta.append("CC ");
        meta.append(v.as_str());
    }
    assert(meta@ =~= meta_text(*s));
    let mut c = String::new();
    c.append("  cwd      ");
    match &s.cwd {
        Some(w) => c.append(w.as_str()),
        None => c.append("<unknown cwd>"),
    }
    if s.git_branch.is_some() || s.version.is_some() {
        c.append("   (");
        c.append(meta.as_str());
        c.append(")");
    }
    assert(c@ =~= cwd_line(*s));
    c
}

fn push_pending(out: &mut Vec<String>, s: &SessionSummary)
    ensures
        line_views(final(out)@) == line_views(old(out)@) + pending_lines(*s),
{
    proof {
        reveal_strlit("  pending  with elicitation sidecar");
        reveal_strlit("           \u{23f3} ");
    }
    let ghost mid = line_views(out@);
    if s.pending_elicitations.len() > 0 {
        push_line(out, "  pending  with elicitation sidecar".to_string());
        let ghost head = line_views(out@);
        let mut i: usize = 0;
        while i < s.pending_elicitations.len()
            invariant
                i <= s.pending_elicitations@.len(),
                line_views(out@) == head + s.pending_elicitations@.take(i as int).map_values(|p: String|
                    "           \u{23f3} "@ + truncated(p@, EXCERPT_MAX as nat)),
            decreases s.pending_elicitations.len() - i,
        {
            let mut l = String::new();
            l.append("           \u{23f3} ");
            let t = truncate_excerpt(s.pending_elicitations[i].as_str());
            l.append(t.as_str());
            push_line(out, l);
            assert(s.pending_elicitations@.take(i + 1) =~= s.pending_elicitations@.take(i as int).push(s.pending_elicitations@[i as int]));
            i = i + 1;
        }
        assert(s.pending_elicitations@.take(s.pending_elicitations@.len() as int) =~= s.pending_elicitations@);
    }
    assert(line_views(out@) =~= mid + pending_lines(*s));
}

fn push_row(out: &mut Vec<String>, s: &SessionSummary, stamps: &(String, String, String))
    ensures
        line_views(final(out)@) == line_views(old(out)@) + row_lines(*s, (stamps.0@, stamps.1@, stamps.2@)),
{
    proof {
        reveal_strlit("  note     ");
        reveal_strlit(" (among the head/tail lines read \u{2014} full census: csift stats)");
    }
    let ghost base = line_views(out@);
    push_line(out, identity_text(s));
    push_line(out, cwd_text(s));
    push_preview(out, "first \u{25c2}", &s.first_user, stamps.0.as_str());
    push_preview(out, "last \u{25c2} ", &s.last_user, stamps.1.as_str());
    push_preview(out, "last \u{25b8} ", &s.last_agent, stamps.2.as_str());
    push_pending(out, s);
    if s.skipped_lines > 0 {
        let mut n = String::new();
        n.append("  note     ");
        let note = malformed_note_text(s.skipped_lines);
        n.append(note.as_str());
        n.append(" (among the head/tail lines read \u{2014} full census: csift stats)");
        push_line(out, n);
    }
    assert(line_views(out@) =~= base + row_lines(*s, (stamps.0@, stamps.1@, stamps.2@)));
}

/// The text of `list` (see [`spec_list_text`]); `stamps[i]` are the rendered times of row
/// `i`'s three previews.
pub fn list_text_lines(summaries: &Vec<SessionSummary>, dropped: usize, stamps: &Vec<(String, String, String)>) -> (out: Vec<String>)
    requires
        stamps@.len() == summaries@.len(),
    ensures
        line_views(out@) == spec_list_text(summaries@, dropped, stamp_views(stamps@)),
{
    let mut out: Vec<String> = Vec::new();
    proof {
        reveal_strlit("no sessions found");
        reveal_strlit("");
        reveal_strlit("\u{2026} (+");
        reveal_strlit(" more session(s) not shown \u{2014} the most recently active are listed; narrow with a target or --since, or raise --max-count)");
    }
    if summaries.len() == 0 {
        push_line(&mut out, "no sessions found".to_string());
        return out;
    }
    let ghost sv = stamp_views(stamps@);
    let mut i: usize = 0;
    while i < summaries.len()
        invariant
            i <= summaries@.len(),
            stamps@.len() == summaries@.len(),
            sv == stamp_views(stamps@),
            line_views(out@) == rows_lines(summaries@, sv, i as int),
        decreases summaries.len() - i,
    {
        if i > 0 {
            push_line(&mut out, String::new());
        }
        assert(sv[i as int] == (stamps@[i as int].0@, stamps@[i as int].1@, stamps@[i as int].2@));
        push_row(&mut out, &summaries[i], &stamps[i]);
        i = i + 1;
    }
    if dropped > 0 {
        push_line(&mut out, String::new());
        let mut d = String::new();
        d.append("\u{2026} (+");
        push_decimal(&mut d, dropped as u64);
        d.append(" more session(s) not shown \u{2014} the most recently active are listed; narrow with a target or --since, or raise --max-count)");
        push_line(&mut out, d);
    }
    out
}

fn stamp_of(p: &Option<MessagePreview>) -> (s: String)
    ensures
        p is None ==> s@ == em_dash(),
{
    match p {
        Some(p) => match &p.timestamp_utc {
            Some(t) => format_timestamp(Some(t.as_str())),
            None => format_timestamp(None),
        },
        None => format_timestamp(None),
    }
}

/// The text of `list` with each preview's time rendered in the local zone (see
/// [`format_timestamp`]).
pub fn list_text(summaries: &Vec<SessionSummary>, dropped: usize) -> (out: Vec<String>)
    ensures
        exists|stamps: Seq<(Seq<char>, Seq<char>, Seq<char>)>| stamps.len() == summaries@.len()
            && line_views(out@) == #[trigger] spec_list_text(summaries@, dropped, stamps),
{
    let mut stamps: Vec<(String, String, String)> = Vec::new();
    let mut i: usize = 0;
    while i < summaries.len()
        invariant
            i <= summaries@.len(),
            stamps@.len() == i,
        decreases summaries.len() - i,
    {
        let s = &summaries[i];
        stamps.push((stamp_of(&s.first_user), stamp_of(&s.last_user), stamp_of(&s.last_agent)));
        i = i + 1;
    }
    list_text_lines(summaries, dropped, &stamps)
}

} // verus!
