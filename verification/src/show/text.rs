//! The text projection of a rendered `show` fetch: the transcript header, each turn's
//! records, and the fetch accounting.

use vstd::prelude::*;
use crate::chars::{decimal, push_decimal};
use crate::search::census::{any_hit, merged_any_sidecar};
use crate::search::render::{image_hint_line, spec_image_hint};
use crate::search::text_out::{emit, emit_units, glyph, glyph_of, line_views, push_line, push_unit, record_line,
    spec_record_line, turn_label, unit_views, Unit};
use crate::search::types::{Exchange, Hit};
use crate::stats::render::{malformed_note, malformed_note_text};
use crate::model::opt_view;
use crate::timefmt::{em_dash, format_timestamp};

verus! {

pub open spec fn str_opt(o: Option<&str>) -> Option<Seq<char>> {
    match o {
        Some(c) => Some(c@),
        None => None,
    }
}

/// The transcript header of a fetch.
pub open spec fn show_header(session_id: Seq<char>, is_subagent: bool, parent: Seq<char>) -> Seq<char> {
    if is_subagent {
        "SUBAGENT "@ + session_id + " \u{b7} parent SESSION "@ + parent
    } else {
        "SESSION "@ + session_id
    }
}

/// The units of one fetched turn: a blank line and `t<turn>  <stamp>`, then a unit per
/// record.
pub open spec fn show_units(ex: Exchange, session_id: Seq<char>, stamp: Seq<char>) -> Seq<Unit> {
    seq![(seq![Seq::empty(), turn_label(ex.turn_index) + "  "@ + stamp], None)]
        + ex.hits@.map_values(|h: Hit| (seq![spec_record_line(glyph_of(h.class), h)], spec_image_hint(session_id, h.image_ids@)))
}

pub open spec fn all_show_units(exs: Seq<Exchange>, session_id: Seq<char>, stamps: Seq<Seq<char>>, e: int) -> Seq<Unit>
    decreases e,
{
    if e <= 0 {
        seq![]
    } else {
        all_show_units(exs, session_id, stamps, e - 1) + show_units(exs[e - 1], session_id, stamps[e - 1])
    }
}

/// The number of records of the first `e` exchanges.
pub open spec fn record_units(exs: Seq<Exchange>, e: int) -> nat
    decreases e,
{
    if e <= 0 { 0 } else { record_units(exs, e - 1) + exs[e - 1].hits@.len() }
}

/// The fetch accounting: the records shown, the cap's remainder (with the command that
/// continues it, when there is one), the addressed lines that are not records, the
/// sidecar and skipped-lines notes.
pub open spec fn show_footer(exs: Seq<Exchange>, skipped: usize, dropped: usize, cap: usize, remainder_cmd: Option<Seq<char>>,
    non_record_lines: usize) -> Seq<Seq<char>> {
    seq![Seq::empty(), "fetched "@ + decimal(record_units(exs, exs.len() as int)) + " record unit(s)"@]
        + (if dropped > 0 {
            seq![match remainder_cmd {
                Some(cmd) => "+"@ + decimal(dropped as nat) + " more record unit(s) beyond the "@ + decimal(cap as nat)
                    + "-unit cap \u{b7} continue: "@ + cmd + "  (or --max-count 0 = uncapped)"@,
                None => "+"@ + decimal(dropped as nat) + " more record unit(s) beyond the "@ + decimal(cap as nat)
                    + "-unit cap \u{2014} pass --max-count 0 (uncapped)"@,
            }]
        } else {
            seq![]
        })
        + (if non_record_lines > 0 {
            seq![decimal(non_record_lines as nat) + " line(s) in the addressed range are not records (metadata/attachment \u{2014} inspect with --raw)"@]
        } else {
            seq![]
        })
        + (if any_hit(exs, true) { seq!["with elicitation sidecar"@] } else { seq![] })
        + (if skipped > 0 { seq!["("@ + malformed_note(skipped as int) + ")"@] } else { seq![] })
}

/// The text of a fetch, line by line; `stamps[i]` is the rendered start of turn `i`.
pub open spec fn spec_show_text(exs: Seq<Exchange>, session_id: Seq<char>, is_subagent: bool, parent: Seq<char>,
    skipped: usize, dropped: usize, cap: usize, remainder_cmd: Option<Seq<char>>, non_record_lines: usize,
    stamps: Seq<Seq<char>>) -> Seq<Seq<char>> {
    let us = all_show_units(exs, session_id, stamps, exs.len() as int);
    seq![show_header(session_id, is_subagent, parent)] + emit_units(us, us.len() as int)
        + show_footer(exs, skipped, dropped, cap, remainder_cmd, non_record_lines)
}

/// The text of a rendered fetch (see [`spec_show_text`]).
pub fn show_text_lines(exchanges: &Vec<Exchange>, session_id: &str, is_subagent: bool, parent_session_id: &str,
    skipped: usize, dropped: usize, cap: usize, remainder_cmd: Option<&str>, non_record_lines: usize,
    stamps: &Vec<String>) -> (out: Vec<String>)
    requires
        stamps@.len() == exchanges@.len(),
        record_units(exchanges@, exchanges@.len() as int) <= usize::MAX,
    ensures
        line_views(out@) == spec_show_text(exchanges@, session_id@, is_subagent, parent_session_id@, skipped, dropped, cap,
            str_opt(remainder_cmd), non_record_lines, line_views(stamps@)),
{
    proof {
        reveal_strlit("SUBAGENT ");
        reveal_strlit(" \u{b7} parent SESSION ");
        reveal_strlit("SESSION ");
        reveal_strlit("  ");
        reveal_strlit("");
    }
    let mut out: Vec<String> = Vec::new();
    let mut head = String::new();
    if is_subagent {
        head.append("SUBAGENT ");
        head.append(session_id);
        head.append(" \u{b7} parent SESSION ");
        head.append(parent_session_id);
    } else {
        head.append("SESSION ");
        head.append(session_id);
    }
    assert(head@ =~= show_header(session_id@, is_subagent, parent_session_id@));
    push_line(&mut out, head);
    let ghost sv = line_views(stamps@);
    let mut us: Vec<(Vec<String>, Option<String>)> = Vec::new();
    let mut units: usize = 0;
    let mut e: usize = 0;
    while e < exchanges.len()
        invariant
            e <= exchanges@.len(),
            stamps@.len() == exchanges@.len(),
            sv == line_views(stamps@),
            record_units(exchanges@, exchanges@.len() as int) <= usize::MAX,
            units == record_units(exchanges@, e as int),
            unit_views(us@) == all_show_units(exchanges@, session_id@, sv, e as int),
        decreases exchanges.len() - e,
    {
        let ex = &exchanges[e];
        assert(sv[e as int] == stamps@[e as int]@);
        push_show_units(&mut us, ex, session_id, stamps[e].as_str());
        assert(unit_views(us@) =~= all_show_units(exchanges@, session_id@, sv, e + 1));
        proof {
            assert(record_units(exchanges@, e + 1) <= record_units(exchanges@, exchanges@.len() as int)) by {
                lemma_record_units_mono(exchanges@, e + 1, exchanges@.len() as int);
            }
        }
        units = units + ex.hits.len();
        e = e + 1;
    }
    emit(&us, &mut out);
    push_show_footer(&mut out, exchanges, skipped, dropped, cap, remainder_cmd, non_record_lines, units);
    assert(line_views(out@) =~= spec_show_text(exchanges@, session_id@, is_subagent, parent_session_id@, skipped, dropped, cap,
        str_opt(remainder_cmd), non_record_lines, sv));
    out
}

proof fn lemma_record_units_mono(exs: Seq<Exchange>, a: int, b: int)
    requires
        0 <= a <= b,
    ensures
        record_units(exs, a) <= record_units(exs, b),
    decreases b - a,
{
    if a < b {
        lemma_record_units_mono(exs, a, b - 1);
    }
}

fn push_show_units(us: &mut Vec<(Vec<String>, Option<String>)>, ex: &Exchange, session_id: &str, stamp: &str)
    ensures
        unit_views(final(us)@) == unit_views(old(us)@) + show_units(*ex, session_id@, stamp@),
{
    let ghost start = unit_views(us@);
    let mut t = String::new();
    t.append("t");
    match ex.turn_index {
        Some(n) => push_decimal(&mut t, n as u64),
        None => crate::chars::push_char(&mut t, '?'),
    }
    t.append("  ");
    t.append(stamp);
    proof {
        reveal_strlit("t");
        reveal_strlit("t?");
        reveal_strlit("  ");
        assert(t@ =~= turn_label(ex.turn_index) + "  "@ + stamp@);
    }
    let lines = vec![String::new(), t];
    assert(lines@.map_values(|s: String| s@) =~= seq![Seq::<char>::empty(), turn_label(ex.turn_index) + "  "@ + stamp@]);
    let ghost base = unit_views(us@);
    push_unit(us, lines, None);
    let ghost after_head = unit_views(us@);
    let mut k: usize = 0;
    while k < ex.hits.len()
        invariant
            k <= ex.hits@.len(),
            unit_views(us@) == after_head + ex.hits@.take(k as int).map_values(|h: Hit|
                (seq![spec_record_line(glyph_of(h.class), h)], spec_image_hint(session_id@, h.image_ids@))),
        decreases ex.hits.len() - k,
    {
        let h = &ex.hits[k];
        let row = vec![record_line(glyph(h.class), h)];
        assert(row@.map_values(|s: String| s@) =~= seq![spec_record_line(glyph_of(h.class), *h)]);
        let hint = image_hint_line(session_id, &h.image_ids);
        push_unit(us, row, hint);
        assert(ex.hits@.take(k + 1) =~= ex.hits@.take(k as int).push(*h));
        k = k + 1;
    }
    assert(ex.hits@.take(ex.hits@.len() as int) =~= ex.hits@);
    assert(unit_views(us@) =~= start + show_units(*ex, session_id@, stamp@));
}

fn push_show_footer(out: &mut Vec<String>, exchanges: &Vec<Exchange>, skipped: usize, dropped: usize, cap: usize,
    remainder_cmd: Option<&str>, non_record_lines: usize, units: usize)
    requires
        units == record_units(exchanges@, exchanges@.len() as int),
    ensures
        line_views(final(out)@) == line_views(old(out)@) + show_footer(exchanges@, skipped, dropped, cap,
            str_opt(remainder_cmd), non_record_lines),
{
    proof {
        reveal_strlit("");
        reveal_strlit("fetched ");
        reveal_strlit(" record unit(s)");
        reveal_strlit("+");
        reveal_strlit(" more record unit(s) beyond the ");
        reveal_strlit("-unit cap \u{b7} continue: ");
        reveal_strlit("  (or --max-count 0 = uncapped)");
        reveal_strlit("-unit cap \u{2014} pass --max-count 0 (uncapped)");
        reveal_strlit(" line(s) in the addressed range are not records (metadata/attachment \u{2014} inspect with --raw)");
        reveal_strlit("with elicitation sidecar");
        reveal_strlit("(");
        reveal_strlit(")");
    }
    let ghost before_footer = line_views(out@);
    push_line(out, String::new());
    let mut f = String::new();
    f.append("fetched ");
    push_decimal(&mut f, units as u64);
    f.append(" record unit(s)");
    push_line(out, f);
    if dropped > 0 {
        let mut d = String::new();
        d.append("+");
        push_decimal(&mut d, dropped as u64);
        d.append(" more record unit(s) beyond the ");
        push_decimal(&mut d, cap as u64);
        match remainder_cmd {
            Some(cmd) => {
                d.append("-unit cap \u{b7} continue: ");
                d.append(cmd);
                d.append("  (or --max-count 0 = uncapped)");
            },
            None => {
                d.append("-unit cap \u{2014} pass --max-count 0 (uncapped)");
            },
        }
        push_line(out, d);
    }
    if non_record_lines > 0 {
        let mut n = String::new();
        push_decimal(&mut n, non_record_lines as u64);
        n.append(" line(s) in the addressed range are not records (metadata/attachment \u{2014} inspect with --raw)");
        push_line(out, n);
    }
    if merged_any_sidecar(exchanges) {
        push_line(out, "with elicitation sidecar".to_string());
    }
    if skipped > 0 {
        let mut k = String::new();
        k.append("(");
        let note = malformed_note_text(skipped);
        k.append(note.as_str());
        k.append(")");
        push_line(out, k);
    }
    assert(line_views(out@) =~= before_footer + show_footer(exchanges@, skipped, dropped, cap,
        str_opt(remainder_cmd), non_record_lines));
}

/// The text of a rendered fetch with each turn's start rendered in the local zone (see
/// [`format_timestamp`]); a turn with no start shows `—`.
pub fn show_text(exchanges: &Vec<Exchange>, session_id: &str, is_subagent: bool, parent_session_id: &str,
    skipped: usize, dropped: usize, cap: usize, remainder_cmd: Option<&str>, non_record_lines: usize) -> (out: Vec<String>)
    requires
        record_units(exchanges@, exchanges@.len() as int) <= usize::MAX,
    ensures
        exists|stamps: Seq<Seq<char>>| stamps.len() == exchanges@.len()
            && (forall|i: int| 0 <= i < stamps.len() && (#[trigger] exchanges@[i]).started_utc is None ==> stamps[i] == em_dash())
            && line_views(out@) == #[trigger] spec_show_text(exchanges@, session_id@, is_subagent, parent_session_id@, skipped,
                dropped, cap, str_opt(remainder_cmd), non_record_lines, stamps),
{
    let mut stamps: Vec<String> = Vec::new();
    let mut e: usize = 0;
    while e < exchanges.len()
        invariant
            e <= exchanges@.len(),
            stamps@.len() == e,
            forall|i: int| 0 <= i < e && (#[trigger] exchanges@[i]).started_utc is None ==> stamps@[i]@ == em_dash(),
        decreases exchanges.len() - e,
    {
        let st = match &exchanges[e].started_utc {
            Some(t) => format_timestamp(Some(t.as_str())),
            None => format_timestamp(None),
        };
        stamps.push(st);
        e = e + 1;
    }
    let out = show_text_lines(exchanges, session_id, is_subagent, parent_session_id, skipped, dropped, cap, remainder_cmd,
        non_record_lines, &stamps);
    assert(forall|i: int| 0 <= i < line_views(stamps@).len() && (#[trigger] exchanges@[i]).started_utc is None
        ==> line_views(stamps@)[i] == em_dash());
    out
}

} // verus!
