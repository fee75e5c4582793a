//! The text projection of a search: the match banner, the self-resolving exchange
//! headers, one row per hit or sibling, the footer and the reader notes.

use vstd::prelude::*;
use crate::chars::{decimal, push_char, push_decimal, str_eq};
use crate::ids::{is_bare_subagent_hex, is_uuid, spec_is_bare_hex, spec_is_uuid};
use crate::search::census::distinct_ids;
use crate::labels::{role_glyph, spec_role, Class, Role};
use crate::search::render::{id_prefix, image_hint_line, image_suffix, render_label, spec_image_hint,
    spec_image_suffix, spec_render_label};
use crate::search::types::{Exchange, Hit, SearchOutcome};
use crate::search::census::{any_hit, any_truncated_excerpt, merged_any_sidecar};
use crate::search::render::{any_image_ids, dropped_side, noun, spec_any_images, window_end};
use crate::model::{join, join_strings, opt_view};
use crate::stats::render::{malformed_note, malformed_note_text};
use crate::timefmt::{em_dash, format_timestamp};

verus! {

/// A hex-shaped transcript id: a session uuid or a bare subagent id.
pub open spec fn hexlike(id: Seq<char>) -> bool {
    spec_is_uuid(id) || spec_is_bare_hex(id)
}

/// The first `n` chars of an id; a shorter id whole.
pub open spec fn prefix(id: Seq<char>, n: int) -> Seq<char> {
    if id.len() <= n { id } else { id.take(n) }
}

/// How many hex-shaped ids among the first `k` of `ds` share `id`'s first 8 chars and
/// its first `n`.
pub open spec fn sharing(ds: Seq<Seq<char>>, id: Seq<char>, n: int, k: int) -> nat
    decreases k,
{
    if k <= 0 {
        0
    } else {
        sharing(ds, id, n, k - 1) + if hexlike(ds[k - 1]) && prefix(ds[k - 1], 8) == prefix(id, 8)
            && prefix(ds[k - 1], n) == prefix(id, n) { 1nat } else { 0nat }
    }
}

/// The header token of `id` among the distinct ids `ds`: a hex-shaped id takes its first
/// 8 chars, its first 12 when another in-scope id shares those 8, and stays whole when
/// another shares the 12 too; any other id shape is its own token.
pub open spec fn token(ds: Seq<Seq<char>>, id: Seq<char>) -> Seq<char> {
    if !hexlike(id) {
        id
    } else if sharing(ds, id, 8, ds.len() as int) == 1 {
        prefix(id, 8)
    } else if sharing(ds, id, 12, ds.len() as int) == 1 {
        prefix(id, 12)
    } else {
        id
    }
}

/// The distinct transcript ids of the exchanges, in first-seen order.
pub fn distinct_id_list(exchanges: &Vec<Exchange>) -> (out: Vec<String>)
    ensures
        out@.map_values(|s: String| s@) == distinct_ids(exchanges@),
{
    let mut seen: Vec<String> = Vec::new();
    let mut e: usize = 0;
    while e < exchanges.len()
        invariant
            e <= exchanges.len(),
            seen@.map_values(|s: String| s@) == distinct_ids(exchanges@.take(e as int)),
        decreases exchanges.len() - e,
    {
        assert(exchanges@.take(e as int + 1).drop_last() =~= exchanges@.take(e as int));
        let id = &exchanges[e].session_id;
        let ghost sv = seen@.map_values(|s: String| s@);
        let mut found = false;
        let mut i: usize = 0;
        while i < seen.len()
            invariant
                i <= seen@.len(),
                sv == seen@.map_values(|s: String| s@),
                found <==> exists|j: int| 0 <= j < i && sv[j] == id@,
            decreases seen.len() - i,
        {
            assert(sv[i as int] == seen@[i as int]@);
            if str_eq(seen[i].as_str(), id.as_str()) {
                found = true;
            }
            i = i + 1;
        }
        assert(found <==> sv.contains(id@));
        if !found {
            seen.push(id.clone());
            assert(seen@.map_values(|s: String| s@) =~= sv.push(id@));
        }
        e = e + 1;
    }
    assert(exchanges@.take(exchanges@.len() as int) =~= exchanges@);
    seen
}

fn hexlike_exec(id: &str) -> (b: bool)
    ensures
        b == hexlike(id@),
{
    is_uuid(id) || is_bare_subagent_hex(id)
}

/// The header token of every distinct transcript id in the output, as `(id, token)` in
/// first-seen order. Derived from the ids alone, so a token is stable across runs.
pub fn header_tokens(exchanges: &Vec<Exchange>) -> (out: Vec<(String, String)>)
    ensures
        out@.len() == distinct_ids(exchanges@).len(),
        forall|i: int| 0 <= i < out@.len() ==> (#[trigger] out@[i]).0@ == distinct_ids(exchanges@)[i]
            && out@[i].1@ == token(distinct_ids(exchanges@), distinct_ids(exchanges@)[i]),
{
    let ids = distinct_id_list(exchanges);
    let ghost ds = ids@.map_values(|s: String| s@);
    let mut hex: Vec<bool> = Vec::new();
    let mut p8: Vec<String> = Vec::new();
    let mut p12: Vec<String> = Vec::new();
    let mut a: usize = 0;
    while a < ids.len()
        invariant
            a <= ids@.len(),
            ds == ids@.map_values(|s: String| s@),
            hex@.len() == a && p8@.len() == a && p12@.len() == a,
            forall|j: int| 0 <= j < a ==> #[trigger] hex@[j] == hexlike(ds[j]) && p8@[j]@ == prefix(ds[j], 8)
                && p12@[j]@ == prefix(ds[j], 12),
        decreases ids.len() - a,
    {
        assert(ds[a as int] == ids@[a as int]@);
        let h = hexlike_exec(ids[a].as_str());
        let q8 = id_prefix(ids[a].as_str(), 8);
        let q12 = id_prefix(ids[a].as_str(), 12);
        assert(q8@ == prefix(ds[a as int], 8));
        assert(q12@ == prefix(ds[a as int], 12));
        hex.push(h);
        p8.push(q8);
        p12.push(q12);
        a = a + 1;
    }
    let mut out: Vec<(String, String)> = Vec::new();
    let mut i: usize = 0;
    while i < ids.len()
        invariant
            i <= ids@.len(),
            ds == ids@.map_values(|s: String| s@),
            hex@.len() == ids@.len() && p8@.len() == ids@.len() && p12@.len() == ids@.len(),
            forall|j: int| 0 <= j < ids@.len() ==> #[trigger] hex@[j] == hexlike(ds[j]) && p8@[j]@ == prefix(ds[j], 8)
                && p12@[j]@ == prefix(ds[j], 12),
            out@.len() == i,
            forall|j: int| 0 <= j < i ==> (#[trigger] out@[j]).0@ == ds[j] && out@[j].1@ == token(ds, ds[j]),
        decreases ids.len() - i,
    {
        let ghost id = ds[i as int];
        let tok = if !hex[i] {
            ids[i].clone()
        } else {
            let mut n8: usize = 0;
            let mut n12: usize = 0;
            let mut k: usize = 0;
            while k < ids.len()
                invariant
                    k <= ids@.len(),
                    i < ids@.len(),
                    id == ds[i as int],
                    ds == ids@.map_values(|s: String| s@),
                    hex@.len() == ids@.len() && p8@.len() == ids@.len() && p12@.len() == ids@.len(),
                    forall|j: int| 0 <= j < ids@.len() ==> #[trigger] hex@[j] == hexlike(ds[j]) && p8@[j]@ == prefix(ds[j], 8)
                        && p12@[j]@ == prefix(ds[j], 12),
                    n8 == sharing(ds, id, 8, k as int),
                    n12 == sharing(ds, id, 12, k as int),
                    n8 <= k && n12 <= k,
                decreases ids.len() - k,
            {
                assert(hex@[k as int] == hexlike(ds[k as int]));
                assert(hex@[i as int] == hexlike(ds[i as int]));
                if hex[k] && str_eq(p8[k].as_str(), p8[i].as_str()) {
                    n8 = n8 + 1;
                    if str_eq(p12[k].as_str(), p12[i].as_str()) {
                        n12 = n12 + 1;
                    }
                }
                k = k + 1;
            }
            if n8 == 1 {
                p8[i].clone()
            } else if n12 == 1 {
                p12[i].clone()
            } else {
                ids[i].clone()
            }
        };
        assert(hex@[i as int] == hexlike(ds[i as int]));
        assert(tok@ == token(ds, id));
        out.push((ids[i].clone(), tok));
        i = i + 1;
    }
    out
}


/// The role glyph of a row: `◂` user, `▸` agent, `⚙` harness (and an unlabeled unit).
pub open spec fn glyph_of(c: Option<Class>) -> char {
    match c {
        Some(c) => match spec_role(c) {
            Role::User => '◂',
            Role::Agent => '▸',
            Role::Harness => '⚙',
        },
        None => '⚙',
    }
}

/// One hit or sibling row: `  <marker> <label>[ <tool>]  L<line>  <excerpt>[ images]`,
/// the line replaced by `(elicitation sidecar)` for a sidecar record.
pub open spec fn spec_record_line(marker: char, h: Hit) -> Seq<char> {
    "  "@ + seq![marker] + " "@ + spec_render_label(h)
        + (match h.tool_name { Some(n) => " "@ + n@, None => Seq::empty() })
        + "  "@ + (if h.from_sidecar { "(elicitation sidecar)"@ } else { "L"@ + decimal(h.line as nat) })
        + "  "@ + h.excerpt@ + spec_image_suffix(h.image_ids@)
}

/// See [`spec_record_line`].
pub fn record_line(marker: char, h: &Hit) -> (s: String)
    ensures
        s@ == spec_record_line(marker, *h),
{
    let mut s = String::new();
    s.append("  ");
    push_char(&mut s, marker);
    s.append(" ");
    let label = render_label(h);
    s.append(label.as_str());
    if let Some(n) = &h.tool_name {
        s.append(" ");
        s.append(n.as_str());
    }
    s.append("  ");
    if h.from_sidecar {
        s.append("(elicitation sidecar)");
    } else {
        s.append("L");
        push_decimal(&mut s, h.line as u64);
    }
    s.append("  ");
    s.append(h.excerpt.as_str());
    let images = image_suffix(&h.image_ids);
    s.append(images.as_str());
    proof {
        reveal_strlit("  ");
        reveal_strlit(" ");
        reveal_strlit("(elicitation sidecar)");
        reveal_strlit("L");
        assert(s@ =~= spec_record_line(marker, *h));
    }
    s
}

pub fn glyph(c: Option<Class>) -> (g: char)
    ensures
        g == glyph_of(c),
{
    match c {
        Some(c) => role_glyph(c),
        None => '⚙',
    }
}

/// The turn a header names: `t<index>`, `t?` for a unit outside turn numbering.
pub open spec fn turn_label(t: Option<usize>) -> Seq<char> {
    match t {
        Some(n) => "t"@ + decimal(n as nat),
        None => "t?"@,
    }
}

/// An exchange header: `<token>·t<turn>[ (parent <8>)]  <stamp>`.
pub open spec fn header_line(tok: Seq<char>, ex: Exchange, stamp: Seq<char>) -> Seq<char> {
    tok + "\u{b7}"@ + turn_label(ex.turn_index)
        + (if ex.is_subagent { " (parent "@ + prefix(ex.parent_session_id@, 8) + ")"@ } else { Seq::empty() })
        + "  "@ + stamp
}

/// A run of output lines and the image-extraction hint it may carry (printed once per run,
/// under the first row that carries one).
pub type Unit = (Seq<Seq<char>>, Option<Seq<char>>);

/// The fetch command under a located subagent hit: its line belongs to the subagent's file.
pub open spec fn subagent_fetch(ex: Exchange, h: Hit) -> Seq<Seq<char>> {
    if ex.is_subagent && !h.from_sidecar && h.line > 0 {
        seq!["      \u{21b3} csift show @"@ + ex.session_id@ + " --line "@ + decimal(h.line as nat)]
    } else {
        seq![]
    }
}

pub open spec fn hit_unit(ex: Exchange, h: Hit) -> Unit {
    (seq![spec_record_line(glyph_of(h.class), h)] + subagent_fetch(ex, h), spec_image_hint(ex.session_id@, h.image_ids@))
}

pub open spec fn sibling_unit(ex: Exchange, h: Hit) -> Unit {
    (seq![spec_record_line('\u{b7}', h)], spec_image_hint(ex.session_id@, h.image_ids@))
}

/// The note of the siblings the fixed policy capped away, with the command that fetches
/// the whole turn.
pub open spec fn more_line(ex: Exchange) -> Seq<char> {
    "  \u{b7} (+"@ + decimal(ex.siblings_hidden as nat) + " more \u{b7} csift show @"@ + ex.session_id@ + " --line "@
        + decimal(ex.turn_lines.0 as nat) + ".."@ + decimal(ex.turn_lines.1 as nat) + ")"@
}

/// The units of one exchange: a blank line and its header, a unit per hit, a unit per
/// sibling, and the capped-siblings note.
pub open spec fn exchange_units(ex: Exchange, tok: Seq<char>, stamp: Seq<char>) -> Seq<Unit> {
    seq![(seq![Seq::empty(), header_line(tok, ex, stamp)], None)]
        + ex.hits@.map_values(|h: Hit| hit_unit(ex, h))
        + ex.siblings@.map_values(|h: Hit| sibling_unit(ex, h))
        + (if ex.siblings_hidden > 0 && ex.turn_lines.0 > 0 { seq![(seq![more_line(ex)], None::<Seq<char>>)] } else { seq![] })
}

pub open spec fn unit_views(us: Seq<(Vec<String>, Option<String>)>) -> Seq<Unit> {
    us.map_values(|u: (Vec<String>, Option<String>)| (u.0@.map_values(|s: String| s@), crate::model::opt_view(u.1)))
}

pub fn push_unit(us: &mut Vec<(Vec<String>, Option<String>)>, lines: Vec<String>, hint: Option<String>)
    ensures
        unit_views(final(us)@) == unit_views(old(us)@).push((lines@.map_values(|s: String| s@), crate::model::opt_view(hint))),
{
    let ghost u = (lines@.map_values(|s: String| s@), crate::model::opt_view(hint));
    us.push((lines, hint));
    assert(unit_views(us@) =~= unit_views(old(us)@).push(u));
}

/// Build the units of one exchange (see [`exchange_units`]), appending them to `us`.
pub fn push_exchange_units(us: &mut Vec<(Vec<String>, Option<String>)>, ex: &Exchange, tok: &str, stamp: &str)
    ensures
        unit_views(final(us)@) == unit_views(old(us)@) + exchange_units(*ex, tok@, stamp@),
{
    let ghost start = unit_views(us@);
    let mut head = String::new();
    head.append(tok);
    push_char(&mut head, '\u{b7}');
    head.append("t");
    match ex.turn_index {
        Some(n) => push_decimal(&mut head, n as u64),
        None => push_char(&mut head, '?'),
    }
    if ex.is_subagent {
        head.append(" (parent ");
        let p = id_prefix(ex.parent_session_id.as_str(), 8);
        head.append(p.as_str());
        head.append(")");
    }
    head.append("  ");
    head.append(stamp);
    proof {
        reveal_strlit("t");
        reveal_strlit("t?");
        reveal_strlit("\u{b7}");
        reveal_strlit(" (parent ");
        reveal_strlit(")");
        reveal_strlit("  ");
        reveal_strlit("");
        assert(head@ =~= header_line(tok@, *ex, stamp@));
    }
    let blank = String::new();
    let lines = vec![blank, head];
    assert(lines@.map_values(|s: String| s@) =~= seq![Seq::<char>::empty(), header_line(tok@, *ex, stamp@)]);
    push_unit(us, lines, None);
    let ghost after_head = unit_views(us@);
    let mut k: usize = 0;
    while k < ex.hits.len()
        invariant
            k <= ex.hits@.len(),
            unit_views(us@) == after_head + ex.hits@.take(k as int).map_values(|h: Hit| hit_unit(*ex, h)),
        decreases ex.hits.len() - k,
    {
        let h = &ex.hits[k];
        let mut lines: Vec<String> = Vec::new();
        lines.push(record_line(glyph(h.class), h));
        if ex.is_subagent && !h.from_sidecar && h.line > 0 {
            let mut f = String::new();
            f.append("      \u{21b3} csift show @");
            f.append(ex.session_id.as_str());
            f.append(" --line ");
            push_decimal(&mut f, h.line as u64);
            lines.push(f);
        }
        proof {
            reveal_strlit("      \u{21b3} csift show @");
            reveal_strlit(" --line ");
            assert(lines@.map_values(|s: String| s@) =~= hit_unit(*ex, *h).0);
        }
        let hint = image_hint_line(ex.session_id.as_str(), &h.image_ids);
        push_unit(us, lines, hint);
        assert(ex.hits@.take(k + 1) =~= ex.hits@.take(k as int).push(*h));
        k = k + 1;
    }
    assert(ex.hits@.take(ex.hits@.len() as int) =~= ex.hits@);
    let ghost after_hits = unit_views(us@);
    let mut j: usize = 0;
    while j < ex.siblings.len()
        invariant
            j <= ex.siblings@.len(),
            unit_views(us@) == after_hits + ex.siblings@.take(j as int).map_values(|h: Hit| sibling_unit(*ex, h)),
        decreases ex.siblings.len() - j,
    {
        let h = &ex.siblings[j];
        let lines = vec![record_line('\u{b7}', h)];
        assert(lines@.map_values(|s: String| s@) =~= sibling_unit(*ex, *h).0);
        let hint = image_hint_line(ex.session_id.as_str(), &h.image_ids);
        push_unit(us, lines, hint);
        assert(ex.siblings@.take(j + 1) =~= ex.siblings@.take(j as int).push(*h));
        j = j + 1;
    }
    assert(ex.siblings@.take(ex.siblings@.len() as int) =~= ex.siblings@);
    let ghost after_sibs = unit_views(us@);
    if ex.siblings_hidden > 0 && ex.turn_lines.0 > 0 {
        let mut m = String::new();
        m.append("  \u{b7} (+");
        push_decimal(&mut m, ex.siblings_hidden as u64);
        m.append(" more \u{b7} csift show @");
        m.append(ex.session_id.as_str());
        m.append(" --line ");
        push_decimal(&mut m, ex.turn_lines.0 as u64);
        m.append("..");
        push_decimal(&mut m, ex.turn_lines.1 as u64);
        m.append(")");
        proof {
            reveal_strlit("  \u{b7} (+");
            reveal_strlit(" more \u{b7} csift show @");
            reveal_strlit(" --line ");
            reveal_strlit("..");
            reveal_strlit(")");
            assert(m@ =~= more_line(*ex));
        }
        let lines = vec![m];
        assert(lines@.map_values(|s: String| s@) =~= seq![more_line(*ex)]);
        push_unit(us, lines, None);
    }
    assert(unit_views(us@) =~= start + exchange_units(*ex, tok@, stamp@));
}


/// Has a unit among the first `n` carried an image hint?
pub open spec fn hinted(us: Seq<Unit>, n: int) -> bool
    decreases n,
{
    if n <= 0 { false } else { hinted(us, n - 1) || us[n - 1].1 is Some }
}

/// The lines of the first `n` units, with the image hint under the first unit that
/// carries one (and no other).
pub open spec fn emit_units(us: Seq<Unit>, n: int) -> Seq<Seq<char>>
    decreases n,
{
    if n <= 0 {
        seq![]
    } else {
        emit_units(us, n - 1) + us[n - 1].0
            + if !hinted(us, n - 1) && us[n - 1].1 is Some { seq![us[n - 1].1->0] } else { seq![] }
    }
}

pub open spec fn line_views(v: Seq<String>) -> Seq<Seq<char>> {
    v.map_values(|s: String| s@)
}

pub fn push_line(out: &mut Vec<String>, s: String)
    ensures
        line_views(final(out)@) == line_views(old(out)@).push(s@),
{
    let ghost v = s@;
    out.push(s);
    assert(line_views(out@) =~= line_views(old(out)@).push(v));
}

/// Append the lines of the units (see [`emit_units`]).
pub fn emit(us: &Vec<(Vec<String>, Option<String>)>, out: &mut Vec<String>)
    ensures
        line_views(final(out)@) == line_views(old(out)@) + emit_units(unit_views(us@), us@.len() as int),
{
    let ghost uv = unit_views(us@);
    let ghost base = line_views(out@);
    let mut done = false;
    let mut i: usize = 0;
    while i < us.len()
        invariant
            i <= us@.len(),
            uv == unit_views(us@),
            done == hinted(uv, i as int),
            line_views(out@) == base + emit_units(uv, i as int),
        decreases us.len() - i,
    {
        let lines = &us[i].0;
        assert(uv[i as int].0 == lines@.map_values(|s: String| s@));
        let ghost mid = line_views(out@);
        let mut j: usize = 0;
        while j < lines.len()
            invariant
                j <= lines@.len(),
                line_views(out@) == mid + lines@.take(j as int).map_values(|s: String| s@),
            decreases lines.len() - j,
        {
            push_line(out, lines[j].clone());
            assert(lines@.take(j + 1).map_values(|s: String| s@) =~= lines@.take(j as int).map_values(|s: String| s@).push(lines@[j as int]@));
            j = j + 1;
        }
        assert(lines@.take(lines@.len() as int) =~= lines@);
        assert(uv[i as int].1 == opt_view(us@[i as int].1));
        if !done {
            if let Some(h) = &us[i].1 {
                push_line(out, h.clone());
                done = true;
            }
        }
        assert(line_views(out@) =~= base + emit_units(uv, i + 1));
        i = i + 1;
    }
}

pub open spec fn noun_of(n: usize, one: Seq<char>, many: Seq<char>) -> Seq<char> {
    if n == 1 { one } else { many }
}

pub open spec fn any_undated(exs: Seq<Exchange>) -> bool {
    exists|e: int| 0 <= e < exs.len() && (#[trigger] exs[e]).started_utc is None
}

pub open spec fn window_word(max_count: Option<i64>) -> Seq<char> {
    if max_count matches Some(n) && n < 0 { "latest"@ } else { "earliest"@ }
}

pub open spec fn dropped_word(max_count: Option<i64>) -> Seq<char> {
    if max_count matches Some(n) && n < 0 { "earlier"@ } else { "later"@ }
}

/// The head banner: the true totals, the emission direction, the window a cap kept and
/// whether undated exchanges trail.
pub open spec fn banner_line(o: SearchOutcome, max_count: Option<i64>) -> Seq<char> {
    "matches  "@ + decimal(o.total_matched as nat) + " "@ + noun_of(o.total_matched, "exchange"@, "exchanges"@)
        + " \u{b7} "@ + decimal(o.total_sessions as nat) + " "@ + noun_of(o.total_sessions, "session"@, "sessions"@)
        + " \u{b7} oldest first"@
        + (if o.dropped_by_cap > 0 { " \u{b7} showing "@ + window_word(max_count) + " "@ + decimal(o.exchanges@.len()) } else { Seq::empty() })
        + (if any_undated(o.exchanges@) { " \u{b7} undated last"@ } else { Seq::empty() })
}

/// The footer's totals line, with the label filters and the cap's drop.
pub open spec fn matched_line(o: SearchOutcome, labels: Seq<Seq<char>>, labels_not: Seq<Seq<char>>, max_count: Option<i64>) -> Seq<char> {
    "matched "@ + decimal(o.total_matched as nat) + " "@ + noun_of(o.total_matched, "exchange"@, "exchanges"@)
        + " \u{b7} "@ + decimal(o.total_sessions as nat) + " "@ + noun_of(o.total_sessions, "session"@, "sessions"@)
        + " \u{b7} label="@ + (if labels.len() == 0 { "all"@ } else { join(labels, ","@) })
        + (if labels_not.len() > 0 { " \u{b7} label-not="@ + join(labels_not, ","@) } else { Seq::empty() })
        + (if o.dropped_by_cap > 0 {
            " \u{b7} "@ + decimal(o.dropped_by_cap as nat) + " "@ + dropped_word(max_count) + " dropped by --max-count"@
        } else {
            Seq::empty()
        })
}

pub open spec fn drafts_line(n: usize) -> Seq<char> {
    "("@ + decimal(n as nat)
        + " superseded draft(s) collapsed \u{2014} esc-edit resends outside turn numbering; address one directly with csift show --line/--uuid to read it)"@
}

pub open spec fn skipped_line(n: usize) -> Seq<char> {
    "("@ + malformed_note(n as int) + ")"@
}

pub open spec fn image_note() -> Seq<char> {
    "note: image annotations above are extractable, not decorative: csift image <target> --id <ID> --out DIR (bare number for a #N handle), then Read the decoded file."@
}

/// The reader caution printed when an excerpt was clipped.
pub open spec fn caution_lines() -> Seq<Seq<char>> {
    seq![
        Seq::empty(),
        "note: matches above are TRUNCATED, match-centered FRAGMENTS \u{2014} not summaries. A fragment can read very differently from the record's full intent, so do NOT draw conclusions from it alone."@,
        "  whole records: re-run with --no-truncate"@,
        "  one record in full: csift show <@session|@agent-id> --line <N> (the L<n> shown on a row) or --uuid <U>"@
    ]
}

/// The footer: the totals again, then each disclosure that applies.
pub open spec fn footer_lines(o: SearchOutcome, labels: Seq<Seq<char>>, labels_not: Seq<Seq<char>>, max_count: Option<i64>) -> Seq<Seq<char>> {
    seq![Seq::empty(), matched_line(o, labels, labels_not, max_count)]
        + (if any_hit(o.exchanges@, true) { seq!["with elicitation sidecar"@] } else { seq![] })
        + (if o.chain.drafts > 0 { seq![drafts_line(o.chain.drafts)] } else { seq![] })
        + (if o.skipped_lines > 0 { seq![skipped_line(o.skipped_lines)] } else { seq![] })
        + (if spec_any_images(o.exchanges@) { seq![image_note()] } else { seq![] })
        + (if any_hit(o.exchanges@, false) { caution_lines() } else { seq![] })
}

/// The units of the first `e` exchanges, each headed by its transcript's token and its
/// rendered start.
pub open spec fn all_units(exs: Seq<Exchange>, stamps: Seq<Seq<char>>, e: int) -> Seq<Unit>
    decreases e,
{
    if e <= 0 {
        seq![]
    } else {
        all_units(exs, stamps, e - 1) + exchange_units(exs[e - 1], token(distinct_ids(exs), exs[e - 1].session_id@), stamps[e - 1])
    }
}

/// The text of a search, line by line; `stamps[i]` is the rendered start of exchange `i`.
pub open spec fn spec_search_text(o: SearchOutcome, labels: Seq<Seq<char>>, labels_not: Seq<Seq<char>>, max_count: Option<i64>,
    stamps: Seq<Seq<char>>) -> Seq<Seq<char>> {
    if o.exchanges@.len() == 0 {
        seq!["no matching exchanges"@] + (if o.skipped_lines > 0 { seq![skipped_line(o.skipped_lines)] } else { seq![] })
    } else {
        seq![banner_line(o, max_count)]
            + emit_units(all_units(o.exchanges@, stamps, o.exchanges@.len() as int), all_units(o.exchanges@, stamps, o.exchanges@.len() as int).len() as int)
            + footer_lines(o, labels, labels_not, max_count)
    }
}


proof fn lemma_distinct_ids_has(exs: Seq<Exchange>, e: int)
    requires
        0 <= e < exs.len(),
    ensures
        distinct_ids(exs).contains(exs[e].session_id@),
    decreases exs.len(),
{
    let d = distinct_ids(exs.drop_last());
    if e < exs.len() - 1 {
        assert(exs.drop_last()[e] == exs[e]);
        lemma_distinct_ids_has(exs.drop_last(), e);
        let j = choose|j: int| 0 <= j < d.len() && d[j] == exs[e].session_id@;
        if !d.contains(exs.last().session_id@) {
            assert(d.push(exs.last().session_id@)[j] == exs[e].session_id@);
        }
    } else if !d.contains(exs.last().session_id@) {
        assert(d.push(exs.last().session_id@)[d.len() as int] == exs[e].session_id@);
    }
}

fn token_for(tokens: &Vec<(String, String)>, sid: &str, Ghost(ds): Ghost<Seq<Seq<char>>>) -> (r: String)
    requires
        tokens@.len() == ds.len(),
        forall|i: int| 0 <= i < tokens@.len() ==> (#[trigger] tokens@[i]).0@ == ds[i] && tokens@[i].1@ == token(ds, ds[i]),
        ds.contains(sid@),
    ensures
        r@ == token(ds, sid@),
{
    let mut i: usize = 0;
    while i < tokens.len()
        invariant
            i <= tokens@.len(),
            tokens@.len() == ds.len(),
            forall|i: int| 0 <= i < tokens@.len() ==> (#[trigger] tokens@[i]).0@ == ds[i] && tokens@[i].1@ == token(ds, ds[i]),
            ds.contains(sid@),
            forall|j: int| 0 <= j < i ==> ds[j] != sid@,
        decreases tokens.len() - i,
    {
        assert(tokens@[i as int].0@ == ds[i as int]);
        if str_eq(tokens[i].0.as_str(), sid) {
            return tokens[i].1.clone();
        }
        i = i + 1;
    }
    assert(false);
    String::new()
}

fn any_undated_exec(exs: &Vec<Exchange>) -> (b: bool)
    ensures
        b == any_undated(exs@),
{
    let mut e: usize = 0;
    while e < exs.len()
        invariant
            e <= exs@.len(),
            forall|x: int| 0 <= x < e ==> (#[trigger] exs@[x]).started_utc is Some,
        decreases exs.len() - e,
    {
        if exs[e].started_utc.is_none() {
            return true;
        }
        e = e + 1;
    }
    false
}

fn banner_text(o: &SearchOutcome, max_count: Option<i64>) -> (s: String)
    ensures
        s@ == banner_line(*o, max_count),
{
    let mut s = String::new();
    s.append("matches  ");
    push_decimal(&mut s, o.total_matched as u64);
    s.append(" ");
    s.append(noun(o.total_matched, "exchange", "exchanges"));
    s.append(" \u{b7} ");
    push_decimal(&mut s, o.total_sessions as u64);
    s.append(" ");
    s.append(noun(o.total_sessions, "session", "sessions"));
    s.append(" \u{b7} oldest first");
    if o.dropped_by_cap > 0 {
        s.append(" \u{b7} showing ");
        s.append(window_end(max_count));
        s.append(" ");
        push_decimal(&mut s, o.exchanges.len() as u64);
    }
    if any_undated_exec(&o.exchanges) {
        s.append(" \u{b7} undated last");
    }
    proof {
        reveal_strlit("matches  ");
        reveal_strlit(" ");
        reveal_strlit(" \u{b7} ");
        reveal_strlit(" \u{b7} oldest first");
        reveal_strlit(" \u{b7} showing ");
        reveal_strlit(" \u{b7} undated last");
        reveal_strlit("");
        assert(s@ =~= banner_line(*o, max_count));
    }
    s
}

fn views_of(v: &Vec<String>) -> (r: Ghost<Seq<Seq<char>>>)
    ensures
        r@ == v@.map_values(|s: String| s@),
{
    Ghost(v@.map_values(|s: String| s@))
}

fn matched_text(o: &SearchOutcome, labels: &Vec<String>, labels_not: &Vec<String>, max_count: Option<i64>) -> (s: String)
    ensures
        s@ == matched_line(*o, labels@.map_values(|x: String| x@), labels_not@.map_values(|x: String| x@), max_count),
{
    let mut s = String::new();
    s.append("matched ");
    push_decimal(&mut s, o.total_matched as u64);
    s.append(" ");
    s.append(noun(o.total_matched, "exchange", "exchanges"));
    s.append(" \u{b7} ");
    push_decimal(&mut s, o.total_sessions as u64);
    s.append(" ");
    s.append(noun(o.total_sessions, "session", "sessions"));
    s.append(" \u{b7} label=");
    if labels.len() == 0 {
        s.append("all");
    } else {
        let j = join_strings(labels, ",");
        s.append(j.as_str());
    }
    if labels_not.len() > 0 {
        s.append(" \u{b7} label-not=");
        let j = join_strings(labels_not, ",");
        s.append(j.as_str());
    }
    if o.dropped_by_cap > 0 {
        s.append(" \u{b7} ");
        push_decimal(&mut s, o.dropped_by_cap as u64);
        s.append(" ");
        s.append(dropped_side(max_count));
        s.append(" dropped by --max-count");
    }
    proof {
        reveal_strlit("matched ");
        reveal_strlit(" ");
        reveal_strlit(" \u{b7} ");
        reveal_strlit(" \u{b7} label=");
        reveal_strlit("all");
        reveal_strlit(",");
        reveal_strlit(" \u{b7} label-not=");
        reveal_strlit(" dropped by --max-count");
        reveal_strlit("");
        assert(s@ =~= matched_line(*o, labels@.map_values(|x: String| x@), labels_not@.map_values(|x: String| x@), max_count));
    }
    s
}

fn footer(o: &SearchOutcome, labels: &Vec<String>, labels_not: &Vec<String>, max_count: Option<i64>, out: &mut Vec<String>)
    ensures
        line_views(final(out)@) == line_views(old(out)@)
            + footer_lines(*o, labels@.map_values(|x: String| x@), labels_not@.map_values(|x: String| x@), max_count),
{
    proof {
        reveal_strlit("");
        reveal_strlit("with elicitation sidecar");
        reveal_strlit("(");
        reveal_strlit(")");
        reveal_strlit(" superseded draft(s) collapsed \u{2014} esc-edit resends outside turn numbering; address one directly with csift show --line/--uuid to read it)");
        reveal_strlit("note: image annotations above are extractable, not decorative: csift image <target> --id <ID> --out DIR (bare number for a #N handle), then Read the decoded file.");
        reveal_strlit("note: matches above are TRUNCATED, match-centered FRAGMENTS \u{2014} not summaries. A fragment can read very differently from the record's full intent, so do NOT draw conclusions from it alone.");
        reveal_strlit("  whole records: re-run with --no-truncate");
        reveal_strlit("  one record in full: csift show <@session|@agent-id> --line <N> (the L<n> shown on a row) or --uuid <U>");
    }
    let ghost base = line_views(out@);
    push_line(out, String::new());
    push_line(out, matched_text(o, labels, labels_not, max_count));
    let ghost a = line_views(out@);
    if merged_any_sidecar(&o.exchanges) {
        push_line(out, "with elicitation sidecar".to_string());
    }
    let ghost b = line_views(out@);
    if o.chain.drafts > 0 {
        let mut d = String::new();
        d.append("(");
        push_decimal(&mut d, o.chain.drafts as u64);
        d.append(" superseded draft(s) collapsed \u{2014} esc-edit resends outside turn numbering; address one directly with csift show --line/--uuid to read it)");
        assert(d@ =~= drafts_line(o.chain.drafts));
        push_line(out, d);
    }
    let ghost c = line_views(out@);
    if o.skipped_lines > 0 {
        let mut k = String::new();
        k.append("(");
        let note = malformed_note_text(o.skipped_lines);
        k.append(note.as_str());
        k.append(")");
        assert(k@ =~= skipped_line(o.skipped_lines));
        push_line(out, k);
    }
    let ghost d = line_views(out@);
    if any_image_ids(&o.exchanges) {
        push_line(out, "note: image annotations above are extractable, not decorative: csift image <target> --id <ID> --out DIR (bare number for a #N handle), then Read the decoded file.".to_string());
    }
    let ghost e = line_views(out@);
    if any_truncated_excerpt(&o.exchanges) {
        push_line(out, String::new());
        push_line(out, "note: matches above are TRUNCATED, match-centered FRAGMENTS \u{2014} not summaries. A fragment can read very differently from the record's full intent, so do NOT draw conclusions from it alone.".to_string());
        push_line(out, "  whole records: re-run with --no-truncate".to_string());
        push_line(out, "  one record in full: csift show <@session|@agent-id> --line <N> (the L<n> shown on a row) or --uuid <U>".to_string());
    }
    assert(line_views(out@) =~= base
        + footer_lines(*o, labels@.map_values(|x: String| x@), labels_not@.map_values(|x: String| x@), max_count));
}

/// The text of a search, line by line, each exchange's start rendered as given in
/// `stamps` (one per exchange).
pub fn search_text_lines(o: &SearchOutcome, labels: &Vec<String>, labels_not: &Vec<String>, max_count: Option<i64>,
    stamps: &Vec<String>) -> (out: Vec<String>)
    requires
        stamps@.len() == o.exchanges@.len(),
    ensures
        line_views(out@) == spec_search_text(*o, labels@.map_values(|x: String| x@), labels_not@.map_values(|x: String| x@),
            max_count, line_views(stamps@)),
{
    let mut out: Vec<String> = Vec::new();
    if o.exchanges.len() == 0 {
        push_line(&mut out, "no matching exchanges".to_string());
        if o.skipped_lines > 0 {
            let mut k = String::new();
            k.append("(");
            let note = malformed_note_text(o.skipped_lines);
            k.append(note.as_str());
            k.append(")");
            proof {
                reveal_strlit("(");
                reveal_strlit(")");
                reveal_strlit("");
            }
            assert(k@ =~= skipped_line(o.skipped_lines));
            push_line(&mut out, k);
        }
        proof {
            reveal_strlit("no matching exchanges");
        }
        assert(line_views(out@) =~= spec_search_text(*o, labels@.map_values(|x: String| x@),
            labels_not@.map_values(|x: String| x@), max_count, line_views(stamps@)));
        return out;
    }
    push_line(&mut out, banner_text(o, max_count));
    let tokens = header_tokens(&o.exchanges);
    let ghost ds = distinct_ids(o.exchanges@);
    let ghost sv = line_views(stamps@);
    let mut us: Vec<(Vec<String>, Option<String>)> = Vec::new();
    let mut e: usize = 0;
    while e < o.exchanges.len()
        invariant
            e <= o.exchanges@.len(),
            stamps@.len() == o.exchanges@.len(),
            sv == line_views(stamps@),
            ds == distinct_ids(o.exchanges@),
            tokens@.len() == ds.len(),
            forall|i: int| 0 <= i < tokens@.len() ==> (#[trigger] tokens@[i]).0@ == ds[i] && tokens@[i].1@ == token(ds, ds[i]),
            unit_views(us@) == all_units(o.exchanges@, sv, e as int),
        decreases o.exchanges.len() - e,
    {
        let ex = &o.exchanges[e];
        proof {
            lemma_distinct_ids_has(o.exchanges@, e as int);
        }
        let tok = token_for(&tokens, ex.session_id.as_str(), Ghost(ds));
        assert(sv[e as int] == stamps@[e as int]@);
        push_exchange_units(&mut us, ex, tok.as_str(), stamps[e].as_str());
        e = e + 1;
    }
    emit(&us, &mut out);
    footer(o, labels, labels_not, max_count, &mut out);
    out
}

/// [`spec_search_text`] over the label filters as given.
pub open spec fn search_text_of(o: SearchOutcome, labels: Seq<String>, labels_not: Seq<String>, max_count: Option<i64>,
    stamps: Seq<Seq<char>>) -> Seq<Seq<char>> {
    spec_search_text(o, line_views(labels), line_views(labels_not), max_count, stamps)
}

/// The text of a search, each exchange's start rendered in the local zone (see
/// [`format_timestamp`]); an exchange with no start shows `—`.
pub fn search_text(o: &SearchOutcome, labels: &Vec<String>, labels_not: &Vec<String>, max_count: Option<i64>)
    -> (out: Vec<String>)
    ensures
        exists|stamps: Seq<Seq<char>>| stamps.len() == o.exchanges@.len()
            && (forall|i: int| 0 <= i < stamps.len() && (#[trigger] o.exchanges@[i]).started_utc is None ==> stamps[i] == em_dash())
            && line_views(out@) == #[trigger] search_text_of(*o, labels@, labels_not@, max_count, stamps),
{
    let mut stamps: Vec<String> = Vec::new();
    let mut e: usize = 0;
    while e < o.exchanges.len()
        invariant
            e <= o.exchanges@.len(),
            stamps@.len() == e,
            forall|i: int| 0 <= i < e && (#[trigger] o.exchanges@[i]).started_utc is None ==> stamps@[i]@ == em_dash(),
        decreases o.exchanges.len() - e,
    {
        let st = match &o.exchanges[e].started_utc {
            Some(t) => format_timestamp(Some(t.as_str())),
            None => format_timestamp(None),
        };
        stamps.push(st);
        e = e + 1;
    }
    let out = search_text_lines(o, labels, labels_not, max_count, &stamps);
    assert(line_views(out@) == search_text_of(*o, labels@, labels_not@, max_count, line_views(stamps@)));
    assert(forall|i: int| 0 <= i < line_views(stamps@).len() && (#[trigger] o.exchanges@[i]).started_utc is None
        ==> line_views(stamps@)[i] == em_dash());
    out
}


/// The totals appear at both ends: the head banner opens with the true number of matching
/// exchanges, and the footer's totals line, after every exchange, states the same number.
pub proof fn lemma_totals_at_both_ends(o: SearchOutcome, labels: Seq<Seq<char>>, labels_not: Seq<Seq<char>>,
    max_count: Option<i64>, stamps: Seq<Seq<char>>)
    requires
        o.exchanges@.len() > 0,
    ensures
        ({
            let t = spec_search_text(o, labels, labels_not, max_count, stamps);
            let n = decimal(o.total_matched as nat);
            let us = all_units(o.exchanges@, stamps, o.exchanges@.len() as int);
            let at = (2 + emit_units(us, us.len() as int).len()) as int;
            &&& t[0].subrange(9, 9 + n.len() as int) == n
            &&& at < t.len()
            &&& t[at] == matched_line(o, labels, labels_not, max_count)
            &&& t[at].subrange(8, 8 + n.len() as int) == n
        }),
{
    reveal_strlit("matches  ");
    reveal_strlit("matched ");
    let n = decimal(o.total_matched as nat);
    let b = banner_line(o, max_count);
    let m = matched_line(o, labels, labels_not, max_count);
    assert(b.subrange(9, 9 + n.len() as int) =~= n);
    assert(m.subrange(8, 8 + n.len() as int) =~= n);
}

} // verus!
