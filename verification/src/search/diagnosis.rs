//! The zero-match self-diagnosis: a definitive, honest absence that echoes the filters
//! that constrained it and, under a label filter, names the labels the pattern does
//! occur under.

use vstd::prelude::*;
use crate::chars::{decimal, push_decimal, str_eq};
use crate::model::{join, join_strings, opt_view};
use crate::search::axis::{axis_census, exs_groups, exs_keys, exs_size, tally, CountAxis};
use crate::search::filter::LabelFilter;
use crate::search::types::Exchange;
use crate::stats::order::isort;
use crate::stats::render::{count_first, dec, entry_views, malformed_note, malformed_note_text};

verus! {

/// What a zero-match search reports about itself.
#[derive(Debug)]
pub struct EmptyDiagnosis {
    pub sessions_in_scope: usize,
    /// The active filters, as echoed by [`active_filters_str`].
    pub active_filters: String,
    /// Malformed lines skipped by the scan: the absence holds for parseable lines only.
    pub skipped_lines: usize,
    pub label_filtered: bool,
    /// Under a label filter, the labels the pattern does occur under (richest first) and
    /// the number of such records; `None` when no label filter was active or the pattern
    /// is absent even unfiltered.
    pub excluded_by_label: Option<(Vec<(String, usize)>, usize)>,
}

pub open spec fn opt_part(prefix: Seq<char>, o: Option<Seq<char>>) -> Seq<Seq<char>> {
    match o {
        Some(v) => seq![prefix + v],
        None => seq![],
    }
}

/// The echo of each active filter, in flag order.
pub open spec fn filter_parts(labels: Seq<Seq<char>>, labels_not: Seq<Seq<char>>, since: Option<Seq<char>>,
    until: Option<Seq<char>>, turn_range: Option<Seq<char>>, additional_context: bool) -> Seq<Seq<char>> {
    labels.map_values(|l: Seq<char>| "-t "@ + l) + labels_not.map_values(|l: Seq<char>| "-T "@ + l)
        + opt_part("--since "@, since) + opt_part("--until "@, until) + opt_part("--turn "@, turn_range)
        + if additional_context { seq!["--additional-context"@] } else { seq![] }
}

pub open spec fn views(v: Seq<String>) -> Seq<Seq<char>> {
    v.map_values(|s: String| s@)
}

fn push_prefixed(parts: &mut Vec<String>, prefix: &str, v: &str)
    ensures
        views(final(parts)@) == views(old(parts)@).push(prefix@ + v@),
{
    let mut s = String::new();
    s.append(prefix);
    s.append(v);
    let ghost before = parts@;
    parts.push(s);
    proof {
        reveal_strlit("");
        assert(views(parts@) =~= views(before).push(prefix@ + v@));
    }
}

/// The active `-t`/`-T`/time/turn filters as a compact echo (`none` when unfiltered).
pub fn active_filters_str(labels: &Vec<String>, labels_not: &Vec<String>, since: &Option<String>,
    until: &Option<String>, turn_range: &Option<String>, additional_context: bool) -> (out: String)
    ensures
        ({
            let parts = filter_parts(views(labels@), views(labels_not@), opt_view(*since), opt_view(*until),
                opt_view(*turn_range), additional_context);
            out@ == if parts.len() == 0 { "none"@ } else { join(parts, " "@) }
        }),
{
    let mut parts: Vec<String> = Vec::new();
    let mut i: usize = 0;
    while i < labels.len()
        invariant
            i <= labels@.len(),
            views(parts@) == views(labels@).take(i as int).map_values(|l: Seq<char>| "-t "@ + l),
        decreases labels.len() - i,
    {
        push_prefixed(&mut parts, "-t ", labels[i].as_str());
        assert(views(labels@).take(i + 1) =~= views(labels@).take(i as int).push(labels@[i as int]@));
        assert(views(parts@) =~= views(labels@).take(i + 1).map_values(|l: Seq<char>| "-t "@ + l));
        i = i + 1;
    }
    assert(views(labels@).take(labels@.len() as int) =~= views(labels@));
    let ghost mid = views(parts@);
    let mut j: usize = 0;
    while j < labels_not.len()
        invariant
            j <= labels_not@.len(),
            views(parts@) == mid + views(labels_not@).take(j as int).map_values(|l: Seq<char>| "-T "@ + l),
        decreases labels_not.len() - j,
    {
        push_prefixed(&mut parts, "-T ", labels_not[j].as_str());
        assert(views(labels_not@).take(j + 1) =~= views(labels_not@).take(j as int).push(labels_not@[j as int]@));
        assert(views(parts@) =~= mid + views(labels_not@).take(j + 1).map_values(|l: Seq<char>| "-T "@ + l));
        j = j + 1;
    }
    assert(views(labels_not@).take(labels_not@.len() as int) =~= views(labels_not@));
    let ghost flags = views(parts@);
    if let Some(s) = since {
        push_prefixed(&mut parts, "--since ", s.as_str());
    }
    let ghost a = views(parts@);
    assert(a =~= flags + opt_part("--since "@, opt_view(*since)));
    if let Some(u) = until {
        push_prefixed(&mut parts, "--until ", u.as_str());
    }
    let ghost b = views(parts@);
    assert(b =~= a + opt_part("--until "@, opt_view(*until)));
    if let Some(t) = turn_range {
        push_prefixed(&mut parts, "--turn ", t.as_str());
    }
    let ghost c = views(parts@);
    assert(c =~= b + opt_part("--turn "@, opt_view(*turn_range)));
    if additional_context {
        let ghost before = parts@;
        parts.push("--additional-context".to_string());
        assert(views(parts@) =~= views(before).push("--additional-context"@));
    }
    assert(views(parts@) =~= filter_parts(views(labels@), views(labels_not@), opt_view(*since), opt_view(*until),
        opt_view(*turn_range), additional_context));
    if parts.len() == 0 {
        "none".to_string()
    } else {
        join_strings(&parts, " ")
    }
}


/// The labels a pattern occurs under once the label filter is dropped: the unfiltered
/// label census of a re-scan (`probe`), richest first, with its record count; `None`
/// when the re-scan matched nothing.
pub fn excluded_by_label(probe: &Vec<Exchange>) -> (r: Option<(Vec<(String, usize)>, usize)>)
    requires
        exs_size(probe@, probe@.len() as int) <= usize::MAX,
    ensures
        match r {
            Some(x) => x.1 > 0 && x.1 == exs_groups(probe@, probe@.len() as int)
                && exists|f: LabelFilter| f.wanted@.len() == 0 && f.exclude@.len() == 0
                    && entry_views(x.0@) == isort(tally(exs_keys(probe@, CountAxis::Label, f, probe@.len() as int)),
                        |a: (Seq<char>, usize), b: (Seq<char>, usize)| count_first(a, b)),
            None => exs_groups(probe@, probe@.len() as int) == 0,
        },
{
    let all = LabelFilter::all();
    let (rows, recs, _) = axis_census(probe, CountAxis::Label, &all);
    if recs > 0 {
        Some((rows, recs))
    } else {
        None
    }
}

/// The pattern as the diagnosis quotes it.
pub open spec fn quoted(pattern: Seq<char>) -> Seq<char> {
    if pattern.len() == 0 { "the filter"@ } else { "\""@ + pattern + "\""@ }
}

pub open spec fn head_line(sessions: usize, filters: Seq<char>) -> Seq<char> {
    "csift: 0 matches \u{2014} a DEFINITIVE absence (exit 0), NOT an error. Scope: "@ + dec(sessions as int)
        + " session(s). Active filters: "@ + filters + "."@
}

pub open spec fn caveat_line(skipped: usize) -> Seq<char> {
    "csift: caveat: "@ + malformed_note(skipped as int)
        + " \u{2014} the absence is definitive for parseable lines only."@
}

/// One shown label: `leaf ×count`.
pub open spec fn shown_entry(p: (Seq<char>, usize)) -> Seq<char> {
    p.0 + " \u{d7}"@ + decimal(p.1 as nat)
}

/// How many labels the diagnosis names before summarizing the rest.
pub open spec fn shown_max() -> int {
    6
}

pub open spec fn occur_line(q: Seq<char>, rows: Seq<(Seq<char>, usize)>, recs: usize) -> Seq<char> {
    let shown = rows.take(if rows.len() < shown_max() { rows.len() as int } else { shown_max() });
    let tail = if rows.len() > shown_max() { " (+"@ + dec(rows.len() - shown_max()) + " more label(s))"@ } else { ""@ };
    "csift: \u{26a0} but "@ + q + " DOES occur \u{2014} "@ + dec(recs as int) + " record(s) under: "@
        + join(shown.map_values(|p: (Seq<char>, usize)| shown_entry(p)), " \u{b7} "@) + tail
        + ". Your -t/-T excluded them; drop -t/-T or select one of those labels."@
}

pub open spec fn absent_line(q: Seq<char>) -> Seq<char> {
    "csift: (even without the -t/-T filter, "@ + q
        + " has 0 matches here \u{2014} genuinely absent in this scope, not a label mistake.)"@
}

pub open spec fn hint_line() -> Seq<char> {
    "csift: to see what a scope holds before guessing a filter, run `csift search \"\" <target> --count-by label`."@
}

/// The diagnosis, line by line: the definitive-absence head, the skipped-lines caveat when
/// lines were skipped, then the labels the pattern does occur under, or that it is absent
/// even unfiltered, or (with no label filter) how to survey a scope.
pub open spec fn spec_diagnosis_lines(pattern: Seq<char>, d: EmptyDiagnosis) -> Seq<Seq<char>> {
    let q = quoted(pattern);
    seq![head_line(d.sessions_in_scope, d.active_filters@)]
        + (if d.skipped_lines > 0 { seq![caveat_line(d.skipped_lines)] } else { seq![] })
        + seq![match d.excluded_by_label {
            Some(x) => occur_line(q, entry_views(x.0@), x.1),
            None => if d.label_filtered { absent_line(q) } else { hint_line() },
        }]
}

fn quoted_text(pattern: &str) -> (out: String)
    ensures
        out@ == quoted(pattern@),
{
    proof {
        reveal_strlit("the filter");
        reveal_strlit("\"");
        reveal_strlit("");
    }
    if str_eq(pattern, "") {
        let t = "the filter".to_string();
        assert(t@ == "the filter"@);
        assert(pattern@.len() == 0);
        t
    } else {
        let mut s = String::new();
        s.append("\"");
        s.append(pattern);
        s.append("\"");
        proof {
            reveal_strlit("");
            assert(pattern@.len() != 0) by {
                if pattern@.len() == 0 {
                    assert(pattern@ =~= ""@);
                }
            }
            assert(s@ =~= "\""@ + pattern@ + "\""@);
        }
        s
    }
}

fn occur_text(q: &String, rows: &Vec<(String, usize)>, recs: usize) -> (out: String)
    ensures
        out@ == occur_line(q@, entry_views(rows@), recs),
{
    let ghost rv = entry_views(rows@);
    let n: usize = if rows.len() < 6 { rows.len() } else { 6 };
    let mut parts: Vec<String> = Vec::new();
    let mut i: usize = 0;
    while i < n
        invariant
            i <= n,
            n <= rows@.len(),
            rv == entry_views(rows@),
            parts@.map_values(|s: String| s@) == rv.take(i as int).map_values(|p: (Seq<char>, usize)| shown_entry(p)),
        decreases n - i,
    {
        let mut s = rows[i].0.clone();
        s.append(" \u{d7}");
        push_decimal(&mut s, rows[i].1 as u64);
        proof {
            reveal_strlit(" \u{d7}");
            assert(rv[i as int] == (rows@[i as int].0@, rows@[i as int].1));
            assert(s@ == shown_entry(rv[i as int]));
            assert(rv.take(i + 1) =~= rv.take(i as int).push(rv[i as int]));
        }
        let ghost before = parts@;
        parts.push(s);
        assert(parts@.map_values(|s: String| s@) =~= before.map_values(|s: String| s@).push(s@));
        assert(parts@.map_values(|s: String| s@) =~= rv.take(i + 1).map_values(|p: (Seq<char>, usize)| shown_entry(p)));
        i = i + 1;
    }
    let shown = join_strings(&parts, " \u{b7} ");
    let mut out = String::new();
    out.append("csift: \u{26a0} but ");
    out.append(q.as_str());
    out.append(" DOES occur \u{2014} ");
    push_decimal(&mut out, recs as u64);
    out.append(" record(s) under: ");
    out.append(shown.as_str());
    if rows.len() > 6 {
        out.append(" (+");
        push_decimal(&mut out, (rows.len() - 6) as u64);
        out.append(" more label(s))");
    }
    out.append(". Your -t/-T excluded them; drop -t/-T or select one of those labels.");
    proof {
        reveal_strlit("");
        reveal_strlit("csift: \u{26a0} but ");
        reveal_strlit(" DOES occur \u{2014} ");
        reveal_strlit(" record(s) under: ");
        reveal_strlit(" (+");
        reveal_strlit(" more label(s))");
        reveal_strlit(". Your -t/-T excluded them; drop -t/-T or select one of those labels.");
        assert(rv.take(n as int) == rv.take(if rv.len() < shown_max() { rv.len() as int } else { shown_max() }));
        assert(out@ =~= occur_line(q@, rv, recs));
    }
    out
}

/// The zero-match diagnosis lines for `pattern` (written to standard error).
pub fn diagnosis_lines(pattern: &str, d: &EmptyDiagnosis) -> (out: Vec<String>)
    ensures
        out@.map_values(|s: String| s@) == spec_diagnosis_lines(pattern@, *d),
{
    let q = quoted_text(pattern);
    let mut lines: Vec<String> = Vec::new();
    let mut head = String::new();
    head.append("csift: 0 matches \u{2014} a DEFINITIVE absence (exit 0), NOT an error. Scope: ");
    push_decimal(&mut head, d.sessions_in_scope as u64);
    head.append(" session(s). Active filters: ");
    head.append(d.active_filters.as_str());
    head.append(".");
    lines.push(head);
    if d.skipped_lines > 0 {
        let mut c = String::new();
        c.append("csift: caveat: ");
        let note = malformed_note_text(d.skipped_lines);
        c.append(note.as_str());
        c.append(" \u{2014} the absence is definitive for parseable lines only.");
        lines.push(c);
    }
    let last = match &d.excluded_by_label {
        Some(x) => occur_text(&q, &x.0, x.1),
        None => if d.label_filtered {
            let mut a = String::new();
            a.append("csift: (even without the -t/-T filter, ");
            a.append(q.as_str());
            a.append(" has 0 matches here \u{2014} genuinely absent in this scope, not a label mistake.)");
            a
        } else {
            "csift: to see what a scope holds before guessing a filter, run `csift search \"\" <target> --count-by label`.".to_string()
        },
    };
    lines.push(last);
    proof {
        reveal_strlit("");
        reveal_strlit("csift: 0 matches \u{2014} a DEFINITIVE absence (exit 0), NOT an error. Scope: ");
        reveal_strlit(" session(s). Active filters: ");
        reveal_strlit(".");
        reveal_strlit("csift: caveat: ");
        reveal_strlit(" \u{2014} the absence is definitive for parseable lines only.");
        reveal_strlit("csift: (even without the -t/-T filter, ");
        reveal_strlit(" has 0 matches here \u{2014} genuinely absent in this scope, not a label mistake.)");
        assert(lines@.map_values(|s: String| s@) =~= spec_diagnosis_lines(pattern@, *d));
    }
    lines
}

} // verus!
