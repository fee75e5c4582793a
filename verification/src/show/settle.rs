//! One `show` call from its arguments to what it emits, once its single transcript has
//! been read: the argument checks, the refusal of a request that names no record, the
//! `--line` specs resolved against the transcript's length, and the settling of a raw or
//! a rendered fetch with its address misses and unit cap.

use vstd::prelude::*;
use crate::chars::str_eq;
use crate::model::{join, opt_view};
use crate::range::{RangeSpec, spec_parse_range, trimmed};
use crate::show::addr::{addressed, ascending, insert_sorted, resolve_line_specs, spec_cap, spec_parse_line_specs,
    spec_resolved, spec_turn_miss, turn_miss_error, turn_spec_is_explicit};
use crate::show::plan::{FlatHit, RawSettled, Settled, ShowArgs, ShowMode, all_hits, all_hits_vec, count_non_records,
    file_has, lemma_ascending_unique, lemma_lex_antisym, line_hit, line_misses, misses_message,
    needs_address_message, range_misses, raw_json_message, raw_line_misses, raw_range_misses, raw_uuid_misses,
    remainder_command, run_raw, run_rendered, run_show, show_mode, targets_message, text_sorted, uuid_hit,
    uuid_misses, uuid_set, views};
use crate::search::types::{Exchange, Hit};
use crate::subagent::lex_le;

verus! {

/// The arguments pass every check `run_show` makes.
pub open spec fn show_args_ok(args: ShowArgs) -> bool {
    &&& args.span_flag_error is None
    &&& !(args.raw && args.json)
    &&& spec_parse_line_specs(args.line@) is Some
    &&& args.turn matches Some(t) ==> spec_parse_range(trimmed(t@), false) is Some
    &&& args.target@.len() == 1
}

/// The parsed `--line` tokens (empty when they do not parse).
pub open spec fn show_parsed(args: ShowArgs) -> Seq<(bool, RangeSpec)> {
    match spec_parse_line_specs(args.line@) {
        Some(p) => p,
        None => Seq::empty(),
    }
}

/// The parsed `--turn` spec.
pub open spec fn show_turn(args: ShowArgs) -> Option<RangeSpec> {
    match args.turn {
        Some(t) => spec_parse_range(trimmed(t@), false),
        None => None,
    }
}

/// Some `--uuid` value is not blank once trimmed.
pub open spec fn show_has_uuid(args: ShowArgs) -> bool {
    exists|t: Seq<char>| uuid_set(args.uuid@, t)
}

/// The request names a record: a `--line` token, a non-blank `--uuid` or a `--turn`.
pub open spec fn show_has_address(args: ShowArgs) -> bool {
    show_parsed(args).len() > 0 || show_has_uuid(args) || args.turn is Some
}

/// The addressed uuids: trimmed, blanks dropped, in increasing text order without repeats.
pub open spec fn show_uuids(args: ShowArgs) -> Seq<Seq<char>> {
    choose|s: Seq<Seq<char>>| text_sorted(s) && forall|t: Seq<char>| s.contains(t) <==> uuid_set(args.uuid@, t)
}

/// The refusal of a raw fetch from an empty transcript.
pub open spec fn empty_message(file: Seq<char>) -> Seq<char> {
    "transcript "@ + file + " is empty"@
}

/// The refusal of a fetch whose addresses missed, raw form.
pub open spec fn raw_misses_message(ms: Seq<Seq<char>>) -> Seq<char> {
    "no such record(s): "@ + join(ms, ", "@)
}

/// An explicit `--turn` (both endpoints absolute) that reached no record.
pub open spec fn turn_missed(turn: Option<RangeSpec>, exs: Seq<Exchange>) -> bool {
    turn matches Some(sp) && sp.start is At && sp.end is At && exs.len() == 0
}

/// Some fetched record sits on line `n`.
pub open spec fn record_on(exs: Seq<Exchange>, n: usize) -> bool {
    exists|k: int| 0 <= k < all_hits(exs).len() && (#[trigger] all_hits(exs)[k]).line == n
}

/// The lines a raw fetch wants before any uuid is resolved: the addressed lines, and
/// under `--turn` the located lines of the turn's records.
pub open spec fn raw_wanted(explicit: Seq<usize>, ranges: Seq<(usize, usize)>, exs: Seq<Exchange>, turn: bool, n: usize) -> bool {
    addressed(explicit, ranges, n) || (turn && n > 0 && record_on(exs, n))
}

/// The first of lines `1..=upto` that is not already wanted and whose record's own uuid
/// is `u` (a record that merely quotes the uuid does not count).
pub open spec fn first_uuid_line(lu: Seq<Option<String>>, wanted: spec_fn(usize) -> bool, u: Seq<char>, upto: nat) -> Option<usize>
    decreases upto,
{
    if upto == 0 {
        None
    } else {
        let prev = first_uuid_line(lu, wanted, u, (upto - 1) as nat);
        if prev is Some {
            prev
        } else if upto <= lu.len() && !wanted(upto as usize) && opt_view(lu[upto - 1]) == Some(u) {
            Some(upto as usize)
        } else {
            None
        }
    }
}

/// `uuid U` for each addressed uuid no line resolves to, in order.
pub open spec fn raw_uuid_miss_texts(us: Seq<Seq<char>>, lu: Seq<Option<String>>, wanted: spec_fn(usize) -> bool) -> Seq<Seq<char>>
    decreases us.len(),
{
    if us.len() == 0 {
        Seq::empty()
    } else {
        let r = raw_uuid_miss_texts(us.drop_last(), lu, wanted);
        if first_uuid_line(lu, wanted, us.last(), lu.len()) is None { r.push("uuid "@ + us.last()) } else { r }
    }
}

/// A raw fetch keeps line `n`: it exists and is wanted, or an addressed uuid resolves to it.
pub open spec fn raw_kept(lu: Seq<Option<String>>, wanted: spec_fn(usize) -> bool, us: Seq<Seq<char>>, n: usize) -> bool {
    1 <= n <= lu.len() && (wanted(n) || exists|k: int| 0 <= k < us.len() && first_uuid_line(lu, wanted, us[k], lu.len()) == Some(n))
}

/// `uuid U` for each addressed uuid no fetched record carries, in order.
pub open spec fn uuid_miss_texts(us: Seq<Seq<char>>, f: Seq<FlatHit>) -> Seq<Seq<char>>
    decreases us.len(),
{
    if us.len() == 0 {
        Seq::empty()
    } else {
        let r = uuid_miss_texts(us.drop_last(), f);
        if uuid_hit(f, us.last()) { r } else { r.push("uuid "@ + us.last()) }
    }
}

/// The located hits of a fetch, flattened.
pub open spec fn flat_hits(exs: Seq<Exchange>) -> Seq<FlatHit> {
    all_hits(exs).map_values(|h: Hit| (h.line, h.uuid, h.from_sidecar))
}

/// What a settled `show` call hands on to be emitted.
#[derive(Debug)]
pub enum ShowOutcome {
    /// `--branch-points`: the transcript's fork report is wanted.
    BranchPoints,
    /// `--raw`: the kept lines, ascending (the first `keep` of them are emitted), and the
    /// cap report.
    Raw(Vec<usize>, RawSettled),
    /// Rendered: the fetched exchanges, trimmed to the cap in place, and the cap report.
    Rendered(Settled),
}

proof fn lemma_text_sorted_at(s: Seq<Seq<char>>, i: int, j: int)
    requires
        text_sorted(s),
        0 <= i < j < s.len(),
    ensures
        lex_le(s[i], s[j]),
        s[i] != s[j],
{
    let x = s[i];
    let y = s[j];
    assert(lex_le(x, y) && x != y);
    if x =~= y {
        assert(x == y);
    }
}

/// Two lists in increasing text order without repeats that hold the same texts are the
/// same list.
pub proof fn lemma_text_sorted_unique(a: Seq<Seq<char>>, b: Seq<Seq<char>>)
    requires
        text_sorted(a),
        text_sorted(b),
        forall|t: Seq<char>| a.contains(t) <==> b.contains(t),
    ensures
        a == b,
    decreases a.len(),
{
    if a.len() == 0 {
        if b.len() > 0 {
            assert(b.contains(b[0]));
        }
        assert(a =~= b);
    } else {
        assert(a.contains(a[0]));
        assert(b.contains(b[0]));
        let ka = choose|k: int| 0 <= k < a.len() && a[k] == b[0];
        let kb = choose|k: int| 0 <= k < b.len() && b[k] == a[0];
        assert(a[0] == b[0]) by {
            if a[0] != b[0] {
                assert(ka > 0 && kb > 0);
                assert(lex_le(a[0], a[ka]));
                assert(lex_le(b[0], b[kb]));
                lemma_lex_antisym(a[0], b[0]);
            }
        }
        assert forall|t: Seq<char>| a.drop_first().contains(t) <==> b.drop_first().contains(t) by {
            if a.drop_first().contains(t) {
                let k = choose|k: int| 0 <= k < a.drop_first().len() && a.drop_first()[k] == t;
                assert(a.drop_first()[k] == a[k + 1]);
                assert(0 <= 0 < k + 1 < a.len());
                lemma_text_sorted_at(a, 0, k + 1);
                assert(b.contains(t));
                let j = choose|j: int| 0 <= j < b.len() && b[j] == t;
                assert(j > 0);
                assert(b.drop_first()[j - 1] == t);
            }
            if b.drop_first().contains(t) {
                let k = choose|k: int| 0 <= k < b.drop_first().len() && b.drop_first()[k] == t;
                assert(b.drop_first()[k] == b[k + 1]);
                assert(0 <= 0 < k + 1 < b.len());
                lemma_text_sorted_at(b, 0, k + 1);
                assert(a.contains(t));
                let j = choose|j: int| 0 <= j < a.len() && a[j] == t;
                assert(j > 0);
                assert(a.drop_first()[j - 1] == t);
            }
        }
        assert(text_sorted(a.drop_first()));
        assert(text_sorted(b.drop_first()));
        lemma_text_sorted_unique(a.drop_first(), b.drop_first());
        assert(a =~= seq![a[0]] + a.drop_first());
        assert(b =~= seq![b[0]] + b.drop_first());
    }
}

/// The uuid misses of a rendered fetch depend only on the uuids' texts.
pub proof fn lemma_uuid_misses_texts(a: Seq<String>, f: Seq<FlatHit>)
    ensures
        uuid_misses(a, f) == uuid_miss_texts(views(a), f),
    decreases a.len(),
{
    if a.len() > 0 {
        lemma_uuid_misses_texts(a.drop_last(), f);
        assert(views(a.drop_last()) =~= views(a).drop_last());
    } else {
        assert(views(a) =~= Seq::<Seq<char>>::empty());
    }
}

/// An explicit line no record sits on is named among a rendered fetch's misses.
pub proof fn lemma_line_miss_named(s: Seq<usize>, f: Seq<FlatHit>, n: usize)
    requires
        s.contains(n),
        !line_hit(f, n),
    ensures
        line_misses(s, f).contains(seq!['L'] + crate::chars::decimal(n as nat)),
    decreases s.len(),
{
    let t = seq!['L'] + crate::chars::decimal(n as nat);
    if s.last() == n {
        assert(line_misses(s, f) == line_misses(s.drop_last(), f).push(t));
        assert(line_misses(s, f)[line_misses(s, f).len() - 1] == t);
    } else {
        let k = choose|k: int| 0 <= k < s.len() && s[k] == n;
        assert(s.drop_last()[k] == n);
        lemma_line_miss_named(s.drop_last(), f, n);
        let r = line_misses(s.drop_last(), f);
        let j = choose|j: int| 0 <= j < r.len() && r[j] == t;
        if !line_hit(f, s.last()) {
            assert(line_misses(s, f)[j] == t);
        }
    }
}

/// An explicit line past the end of the file is named among a raw fetch's misses.
pub proof fn lemma_raw_line_miss_named(s: Seq<usize>, total: usize, n: usize)
    requires
        s.contains(n),
        n > total,
    ensures
        raw_line_misses(s, total).contains(seq!['L'] + crate::chars::decimal(n as nat) + file_has(total as nat)),
    decreases s.len(),
{
    let t = seq!['L'] + crate::chars::decimal(n as nat) + file_has(total as nat);
    if s.last() == n {
        assert(raw_line_misses(s, total)[raw_line_misses(s, total).len() - 1] == t);
    } else {
        let k = choose|k: int| 0 <= k < s.len() && s[k] == n;
        assert(s.drop_last()[k] == n);
        lemma_raw_line_miss_named(s.drop_last(), total, n);
        let r = raw_line_misses(s.drop_last(), total);
        let j = choose|j: int| 0 <= j < r.len() && r[j] == t;
        if s.last() > total {
            assert(raw_line_misses(s, total)[j] == t);
        }
    }
}

/// The raw uuid misses over resolved slots are the misses of the uuids' texts.
pub proof fn lemma_raw_uuid_misses_texts(slots: Seq<(String, Option<usize>)>, us: Seq<Seq<char>>,
    lu: Seq<Option<String>>, wanted: spec_fn(usize) -> bool)
    requires
        slots.len() == us.len(),
        forall|k: int| 0 <= k < us.len() ==> (#[trigger] slots[k]).0@ == us[k]
            && slots[k].1 == first_uuid_line(lu, wanted, us[k], lu.len()),
    ensures
        raw_uuid_misses(slots) == raw_uuid_miss_texts(us, lu, wanted),
    decreases us.len(),
{
    if us.len() > 0 {
        assert(slots.drop_last().len() == us.drop_last().len());
        assert forall|k: int| 0 <= k < us.drop_last().len() implies (#[trigger] slots.drop_last()[k]).0@ == us.drop_last()[k]
            && slots.drop_last()[k].1 == first_uuid_line(lu, wanted, us.drop_last()[k], lu.len()) by {
            assert(slots.drop_last()[k] == slots[k]);
        }
        lemma_raw_uuid_misses_texts(slots.drop_last(), us.drop_last(), lu, wanted);
        assert(slots.last() == slots[us.len() - 1]);
    }
}

/// Is `n` among `v`?
fn holds_line(v: &Vec<usize>, n: usize) -> (r: bool)
    ensures
        r == v@.contains(n),
{
    let mut i: usize = 0;
    while i < v.len()
        invariant
            i <= v@.len(),
            forall|k: int| 0 <= k < i ==> v@[k] != n,
        decreases v.len() - i,
    {
        if v[i] == n {
            assert(v@[i as int] == n);
            return true;
        }
        i = i + 1;
    }
    false
}

/// Settle a raw fetch from the transcript's lines, given the own uuid of each line's
/// record (`None` for a line that is no record or has none) and, under `--turn`, the
/// turn's fetched records: an empty transcript is refused; an explicit `--turn` that
/// reached nothing is a turn miss; then each addressed uuid resolves to the first line
/// not already wanted whose record carries it, and the misses and the cap are settled.
fn settle_raw(specs: &crate::show::addr::LineSpecs, uuids: &Vec<String>, turn: Option<RangeSpec>,
    line_uuids: &Vec<Option<String>>, exchanges: &Vec<Exchange>, turn_count: usize, max_count: Option<usize>,
    file_display: &str) -> (r: Result<ShowOutcome, String>)
    ensures
        ({
            let lu = line_uuids@;
            let total = lu.len();
            let w = |n: usize| raw_wanted(specs.explicit@, specs.ranges@, exchanges@, turn is Some, n);
            let us = views(uuids@);
            &&& total == 0 ==> (r matches Err(m) && m@ == empty_message(file_display@))
            &&& total > 0 && turn_missed(turn, exchanges@) ==> (r matches Err(m) && m@ == spec_turn_miss(turn->0, turn_count as nat))
            &&& total > 0 && !turn_missed(turn, exchanges@) ==> forall|ex: Seq<usize>| #[trigger] ascending(ex)
                && (forall|n: usize| ex.contains(n) <==> specs.explicit@.contains(n)) ==> {
                    let ms = raw_line_misses(ex, total as usize) + raw_range_misses(specs.ranges@, total as usize)
                        + raw_uuid_miss_texts(us, lu, w);
                    &&& r is Err <==> ms.len() > 0
                    &&& r matches Err(m) ==> m@ == raw_misses_message(ms)
                }
            &&& r matches Ok(o) ==> (o matches ShowOutcome::Raw(lines, st) && {
                let cap = spec_cap(max_count);
                let n: int = lines@.len() as int;
                &&& ascending(lines@)
                &&& forall|x: usize| lines@.contains(x) <==> raw_kept(lu, w, us, x)
                &&& st.cap == cap
                &&& st.keep as int == (if n > cap { cap as int } else { n })
                &&& st.dropped as int == (if n > cap { n - cap } else { 0 })
                &&& st.continuation == (if n > cap { Some((lines@[cap as int], lines@[n - 1])) } else { None })
            })
        }),
{
    let total = line_uuids.len();
    if total == 0 {
        let mut m = String::new();
        m.append("transcript ");
        m.append(file_display);
        m.append(" is empty");
        proof {
            reveal_strlit("transcript ");
            reveal_strlit(" is empty");
        }
        assert(m@ =~= empty_message(file_display@));
        return Err(m);
    }
    if let Some(sp) = &turn {
        if turn_spec_is_explicit(sp) && exchanges.len() == 0 {
            return Err(turn_miss_error(sp, turn_count));
        }
    }
    let ghost lu = line_uuids@;
    let ghost w = |n: usize| raw_wanted(specs.explicit@, specs.ranges@, exchanges@, turn is Some, n);
    let ghost us = views(uuids@);
    let mut wanted = specs.all();
    if turn.is_some() {
        let flat = all_hits_vec(exchanges);
        let mut k: usize = 0;
        while k < flat.len()
            invariant
                k <= flat@.len(),
                flat@.len() == all_hits(exchanges@).len(),
                forall|q: int| 0 <= q < flat@.len() ==> (#[trigger] flat@[q]).0 == all_hits(exchanges@)[q].line,
                ascending(wanted@),
                forall|n: usize| wanted@.contains(n) <==> (addressed(specs.explicit@, specs.ranges@, n)
                    || (n > 0 && exists|q: int| 0 <= q < k && (#[trigger] flat@[q]).0 == n)),
            decreases flat.len() - k,
        {
            if flat[k].0 > 0 {
                insert_sorted(&mut wanted, flat[k].0);
            }
            assert forall|n: usize| wanted@.contains(n) <==> (addressed(specs.explicit@, specs.ranges@, n)
                || (n > 0 && exists|q: int| 0 <= q < k + 1 && (#[trigger] flat@[q]).0 == n)) by {
                if n > 0 && flat@[k as int].0 == n {
                    assert(exists|q: int| 0 <= q < k + 1 && (#[trigger] flat@[q]).0 == n);
                }
                if exists|q: int| 0 <= q < k + 1 && (#[trigger] flat@[q]).0 == n {
                    let q = choose|q: int| 0 <= q < k + 1 && (#[trigger] flat@[q]).0 == n;
                    if q < k {
                        assert(exists|q: int| 0 <= q < k && (#[trigger] flat@[q]).0 == n);
                    }
                }
            }
            k = k + 1;
        }
        assert forall|n: usize| wanted@.contains(n) <==> w(n) by {
            if n > 0 && (exists|q: int| 0 <= q < flat@.len() && (#[trigger] flat@[q]).0 == n) {
                let q = choose|q: int| 0 <= q < flat@.len() && (#[trigger] flat@[q]).0 == n;
                assert(all_hits(exchanges@)[q].line == n);
            }
            if n > 0 && record_on(exchanges@, n) {
                let q = choose|q: int| 0 <= q < all_hits(exchanges@).len() && (#[trigger] all_hits(exchanges@)[q]).line == n;
                assert(flat@[q].0 == n);
            }
        }
    }
    assert(forall|n: usize| wanted@.contains(n) <==> w(n));
    let mut slots: Vec<Option<usize>> = Vec::new();
    let mut k0: usize = 0;
    while k0 < uuids.len()
        invariant
            k0 <= uuids@.len(),
            slots@.len() == k0,
            forall|q: int| 0 <= q < k0 ==> (#[trigger] slots@[q]) is None,
        decreases uuids.len() - k0,
    {
        slots.push(None);
        k0 = k0 + 1;
    }
    let mut i: usize = 0;
    while i < total
        invariant
            i <= total,
            total == lu.len(),
            lu == line_uuids@,
            us == views(uuids@),
            slots@.len() == uuids@.len(),
            forall|n: usize| wanted@.contains(n) <==> w(n),
            forall|q: int| 0 <= q < slots@.len() ==> (#[trigger] slots@[q]) == first_uuid_line(lu, w, us[q], i as nat),
        decreases total - i,
    {
        let n = i + 1;
        let is_w = holds_line(&wanted, n);
        let mut k: usize = 0;
        while k < uuids.len()
            invariant
                k <= uuids@.len(),
                n == i + 1,
                i < total,
                total == lu.len(),
                lu == line_uuids@,
                us == views(uuids@),
                is_w == w(n),
                slots@.len() == uuids@.len(),
                forall|q: int| 0 <= q < k ==> (#[trigger] slots@[q]) == first_uuid_line(lu, w, us[q], (i + 1) as nat),
                forall|q: int| k <= q < slots@.len() ==> (#[trigger] slots@[q]) == first_uuid_line(lu, w, us[q], i as nat),
            decreases uuids.len() - k,
        {
            assert(us[k as int] == uuids@[k as int]@);
            if slots[k].is_none() && !is_w {
                match &line_uuids[i] {
                    Some(s) => {
                        if str_eq(s.as_str(), uuids[k].as_str()) {
                            slots.set(k, Some(n));
                        }
                    },
                    None => {},
                }
            }
            k = k + 1;
        }
        i = i + 1;
    }
    let mut pairs: Vec<(String, Option<usize>)> = Vec::new();
    let mut k1: usize = 0;
    while k1 < uuids.len()
        invariant
            k1 <= uuids@.len(),
            pairs@.len() == k1,
            slots@.len() == uuids@.len(),
            us == views(uuids@),
            forall|q: int| 0 <= q < k1 ==> (#[trigger] pairs@[q]).0@ == us[q] && pairs@[q].1 == slots@[q],
        decreases uuids.len() - k1,
    {
        pairs.push((uuids[k1].clone(), slots[k1]));
        k1 = k1 + 1;
    }
    proof {
        lemma_raw_uuid_misses_texts(pairs@, us, lu, w);
    }
    let mut kept: Vec<usize> = Vec::new();
    let mut j: usize = 0;
    while j < total
        invariant
            j <= total,
            total == lu.len(),
            slots@.len() == uuids@.len(),
            us == views(uuids@),
            forall|n: usize| wanted@.contains(n) <==> w(n),
            forall|q: int| 0 <= q < slots@.len() ==> (#[trigger] slots@[q]) == first_uuid_line(lu, w, us[q], lu.len()),
            ascending(kept@),
            forall|q: int| 0 <= q < kept@.len() ==> 1 <= #[trigger] kept@[q] <= j,
            forall|x: usize| kept@.contains(x) <==> (x <= j && raw_kept(lu, w, us, x)),
        decreases total - j,
    {
        let n = j + 1;
        let mut hit = holds_line(&wanted, n);
        let mut k: usize = 0;
        while k < slots.len()
            invariant
                k <= slots@.len(),
                slots@.len() == uuids@.len(),
                hit == (w(n) || exists|q: int| 0 <= q < k && slots@[q] == Some(n)),
                forall|n2: usize| wanted@.contains(n2) <==> w(n2),
            decreases slots.len() - k,
        {
            match slots[k] {
                Some(x) => {
                    if x == n {
                        hit = true;
                    }
                },
                None => {},
            }
            k = k + 1;
        }
        let ghost before = kept@;
        if hit {
            kept.push(n);
        }
        assert(!before.contains(n)) by {
            if before.contains(n) {
                let q = choose|q: int| 0 <= q < before.len() && before[q] == n;
                assert(before[q] <= j);
            }
        }
        assert(hit == raw_kept(lu, w, us, n)) by {
            assert(1 <= n <= lu.len());
            if raw_kept(lu, w, us, n) && !w(n) {
                let q = choose|q: int| 0 <= q < us.len() && first_uuid_line(lu, w, us[q], lu.len()) == Some(n);
                assert(slots@[q] == Some(n));
            }
            if hit && !w(n) {
                let q = choose|q: int| 0 <= q < slots@.len() && slots@[q] == Some(n);
                assert(first_uuid_line(lu, w, us[q], lu.len()) == Some(n));
            }
        }
        assert forall|x: usize| kept@.contains(x) <==> (x <= n && raw_kept(lu, w, us, x)) by {
            if x == n {
                if hit {
                    assert(kept@[kept@.len() - 1] == n);
                }
            } else {
                if kept@.contains(x) {
                    let q = choose|q: int| 0 <= q < kept@.len() && kept@[q] == x;
                    assert(q < before.len());
                    assert(before[q] == x);
                }
                if before.contains(x) {
                    let q = choose|q: int| 0 <= q < before.len() && before[q] == x;
                    assert(kept@[q] == x);
                }
            }
        }
        j = j + 1;
    }
    let mut asc: Vec<usize> = Vec::new();
    let mut e: usize = 0;
    while e < specs.explicit.len()
        invariant
            e <= specs.explicit@.len(),
            ascending(asc@),
            forall|n: usize| asc@.contains(n) <==> exists|q: int| 0 <= q < e && specs.explicit@[q] == n,
        decreases specs.explicit.len() - e,
    {
        insert_sorted(&mut asc, specs.explicit[e]);
        e = e + 1;
    }
    proof {
        assert forall|ex: Seq<usize>| #[trigger] ascending(ex) && (forall|n: usize| ex.contains(n) <==> specs.explicit@.contains(n))
            implies ex == asc@ by {
            assert forall|n: usize| ex.contains(n) <==> asc@.contains(n) by {
                if specs.explicit@.contains(n) {
                    let q = choose|q: int| 0 <= q < specs.explicit@.len() && specs.explicit@[q] == n;
                    assert(exists|q: int| 0 <= q < specs.explicit@.len() && specs.explicit@[q] == n);
                }
            }
            lemma_ascending_unique(ex, asc@);
        }
    }
    match run_raw(&asc, &specs.ranges, total, &pairs, &kept, max_count) {
        Ok(st) => Ok(ShowOutcome::Raw(kept, st)),
        Err(m) => Err(m),
    }
}

/// One `show` call from its arguments to what it emits, once its single transcript is
/// read: `file_display` names the transcript, `line_uuids` holds one entry per physical
/// line (the own uuid of the line's record, `None` where there is none), `exchanges`
/// holds the records fetched for the request (rendered: those the resolved addresses,
/// uuids and turn reach; raw: those of `--turn`, nothing without it) with
/// `turn_count` turns in the transcript, and `session_id` names the session for a
/// continuation command.
///
/// In order: the argument checks of `run_show`; `--branch-points`; the refusal of a
/// request that names no record (a whole transcript is never dumped); the `--line` specs
/// resolved against the transcript's line count; then the raw or the rendered settling,
/// whose address misses name each explicit line that reaches nothing (a raw line past
/// the end of the file, a rendered line no record sits on) and whose cap keeps the first
/// units.
pub fn settle_show(args: &ShowArgs, file_display: &str, line_uuids: &Vec<Option<String>>, exchanges: &mut Vec<Exchange>,
    turn_count: usize, session_id: &str) -> (r: Result<ShowOutcome, String>)
    ensures
        !show_args_ok(*args) ==> r is Err,
        args.span_flag_error matches Some(m) ==> r == Err::<ShowOutcome, String>(m),
        args.span_flag_error is None && args.raw && args.json ==> (r matches Err(m) && m@ == raw_json_message()),
        args.span_flag_error is None && !(args.raw && args.json) && spec_parse_line_specs(args.line@) is Some
            && (args.turn matches Some(t) ==> spec_parse_range(trimmed(t@), false) is Some)
            && args.target@.len() != 1 ==> (r matches Err(m) && m@ == targets_message(args.target@)),
        show_args_ok(*args) && args.branch_points ==> r matches Ok(ShowOutcome::BranchPoints),
        show_args_ok(*args) && !args.branch_points && !show_has_address(*args)
            ==> (r matches Err(m) && m@ == needs_address_message(file_display@)),
        !(show_args_ok(*args) && !args.branch_points && show_has_address(*args) && !args.raw)
            ==> final(exchanges)@ == old(exchanges)@,
        ({
            let lu = line_uuids@;
            let total = lu.len();
            let (explicit, ranges) = spec_resolved(show_parsed(*args), total);
            let us = show_uuids(*args);
            let turn = show_turn(*args);
            let w = |n: usize| raw_wanted(explicit, ranges, old(exchanges)@, turn is Some, n);
            show_args_ok(*args) && !args.branch_points && show_has_address(*args) && args.raw ==> {
                &&& total == 0 ==> (r matches Err(m) && m@ == empty_message(file_display@))
                &&& total > 0 && turn_missed(turn, old(exchanges)@)
                    ==> (r matches Err(m) && m@ == spec_turn_miss(turn->0, turn_count as nat))
                &&& total > 0 && !turn_missed(turn, old(exchanges)@) ==> forall|ex: Seq<usize>| #[trigger] ascending(ex)
                    && (forall|n: usize| ex.contains(n) <==> explicit.contains(n)) ==> {
                        let ms = raw_line_misses(ex, total as usize) + raw_range_misses(ranges, total as usize)
                            + raw_uuid_miss_texts(us, lu, w);
                        &&& r is Err <==> ms.len() > 0
                        &&& r matches Err(m) ==> m@ == raw_misses_message(ms)
                        &&& forall|n: usize| explicit.contains(n) && n > total ==> #[trigger] ms.contains(
                            seq!['L'] + crate::chars::decimal(n as nat) + file_has(total))
                    }
                &&& r matches Ok(o) ==> (o matches ShowOutcome::Raw(lines, st) && {
                    let cap = spec_cap(args.max_count);
                    let n: int = lines@.len() as int;
                    &&& ascending(lines@)
                    &&& forall|x: usize| lines@.contains(x) <==> raw_kept(lu, w, us, x)
                    &&& st.cap == cap
                    &&& st.keep as int == (if n > cap { cap as int } else { n })
                    &&& st.dropped as int == (if n > cap { n - cap } else { 0 })
                    &&& st.continuation == (if n > cap { Some((lines@[cap as int], lines@[n - 1])) } else { None })
                })
            }
        }),
        ({
            let total = line_uuids@.len();
            let (explicit, ranges) = spec_resolved(show_parsed(*args), total);
            let us = show_uuids(*args);
            let turn = show_turn(*args);
            let f = flat_hits(old(exchanges)@);
            show_args_ok(*args) && !args.branch_points && show_has_address(*args) && !args.raw ==> {
                &&& turn_missed(turn, old(exchanges)@) ==> (r matches Err(m) && m@ == spec_turn_miss(turn->0, turn_count as nat))
                &&& !turn_missed(turn, old(exchanges)@) ==> forall|ex: Seq<usize>| #[trigger] ascending(ex)
                    && (forall|n: usize| ex.contains(n) <==> explicit.contains(n)) ==> {
                        let ms = line_misses(ex, f) + range_misses(ranges, f) + uuid_miss_texts(us, f);
                        &&& r is Err <==> ms.len() > 0
                        &&& r matches Err(m) ==> m@ == misses_message(ms)
                        &&& forall|n: usize| explicit.contains(n) && !line_hit(f, n) ==> #[trigger] ms.contains(
                            seq!['L'] + crate::chars::decimal(n as nat))
                        &&& (forall|k: int| 0 <= k < f.len() ==> (#[trigger] f[k]).0 <= total) ==> forall|n: usize|
                            explicit.contains(n) && n > total ==> #[trigger] ms.contains(seq!['L'] + crate::chars::decimal(n as nat))
                    }
                &&& r matches Ok(o) ==> (o matches ShowOutcome::Rendered(st) && {
                    let cap = spec_cap(args.max_count);
                    &&& st.cap == cap
                    &&& st.dropped == (if f.len() > cap { f.len() - cap } else { 0 })
                    &&& opt_view(st.remainder_cmd) == (if f.len() > cap { remainder_command(session_id@, f, cap as nat) } else { None })
                    &&& all_hits(final(exchanges)@) == (if f.len() > cap { all_hits(old(exchanges)@).take(cap as int) } else { all_hits(old(exchanges)@) })
                    &&& forall|addr: Seq<usize>| #[trigger] ascending(addr)
                        && (forall|n: usize| addr.contains(n) <==> addressed(explicit, ranges, n))
                        ==> st.non_record_lines == count_non_records(addr, f)
                })
            }
        }),
{
    let req = match run_show(args) {
        Ok(q) => q,
        Err(m) => return Err(m),
    };
    proof {
        assert(text_sorted(views(req.uuids@)) && forall|t: Seq<char>| views(req.uuids@).contains(t) <==> uuid_set(args.uuid@, t));
        let s = show_uuids(*args);
        lemma_text_sorted_unique(s, views(req.uuids@));
        if show_has_uuid(*args) {
            let t = choose|t: Seq<char>| uuid_set(args.uuid@, t);
            assert(views(req.uuids@).contains(t));
        }
        if req.uuids@.len() > 0 {
            assert(views(req.uuids@).contains(views(req.uuids@)[0]));
        }
    }
    let mode = match show_mode(&req, file_display) {
        Ok(md) => md,
        Err(m) => return Err(m),
    };
    match mode {
        ShowMode::BranchPoints => Ok(ShowOutcome::BranchPoints),
        ShowMode::Raw => {
            let specs = resolve_line_specs(&req.parsed, line_uuids.len());
            let r = settle_raw(&specs, &req.uuids, req.turn, line_uuids, exchanges, turn_count, req.max_count, file_display);
            proof {
                let total = line_uuids@.len();
                if total > 0 && !turn_missed(req.turn, exchanges@) {
                    let w = |n: usize| raw_wanted(specs.explicit@, specs.ranges@, exchanges@, req.turn is Some, n);
                    assert forall|ex: Seq<usize>, n: usize| #[trigger] ascending(ex)
                        && (forall|n2: usize| ex.contains(n2) <==> specs.explicit@.contains(n2))
                        && specs.explicit@.contains(n) && n > total implies
                        #[trigger] (raw_line_misses(ex, total as usize) + raw_range_misses(specs.ranges@, total as usize)
                            + raw_uuid_miss_texts(views(req.uuids@), line_uuids@, w)).contains(
                            seq!['L'] + crate::chars::decimal(n as nat) + file_has(total)) by {
                        lemma_raw_line_miss_named(ex, total as usize, n);
                        let a = raw_line_misses(ex, total as usize);
                        let t = seq!['L'] + crate::chars::decimal(n as nat) + file_has(total);
                        let j = choose|j: int| 0 <= j < a.len() && a[j] == t;
                        let all = a + raw_range_misses(specs.ranges@, total as usize) + raw_uuid_miss_texts(views(req.uuids@), line_uuids@, w);
                        assert(all[j] == t);
                    }
                }
            }
            r
        },
        ShowMode::Rendered => {
            let specs = resolve_line_specs(&req.parsed, line_uuids.len());
            let ghost f = flat_hits(exchanges@);
            proof {
                lemma_uuid_misses_texts(req.uuids@, f);
            }
            proof {
                assert forall|ex: Seq<usize>, n: usize| #[trigger] ascending(ex)
                    && (forall|n2: usize| ex.contains(n2) <==> specs.explicit@.contains(n2))
                    && specs.explicit@.contains(n) && !line_hit(f, n) implies
                    #[trigger] (line_misses(ex, f) + range_misses(specs.ranges@, f) + uuid_miss_texts(views(req.uuids@), f)).contains(
                        seq!['L'] + crate::chars::decimal(n as nat)) by {
                    lemma_line_miss_named(ex, f, n);
                    let a = line_misses(ex, f);
                    let t = seq!['L'] + crate::chars::decimal(n as nat);
                    let j = choose|j: int| 0 <= j < a.len() && a[j] == t;
                    let all = a + range_misses(specs.ranges@, f) + uuid_miss_texts(views(req.uuids@), f);
                    assert(all[j] == t);
                }
            }
            match run_rendered(exchanges, &specs, &req.uuids, req.turn, turn_count, req.max_count, session_id) {
                Ok(st) => Ok(ShowOutcome::Rendered(st)),
                Err(m) => Err(m),
            }
        },
    }
}

} // verus!
