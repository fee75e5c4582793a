//! The terminal side-modes of a search and its advisory notes: `--count-only`, `-l`, and
//! the stderr notes a query earns before it scans.

use vstd::prelude::*;
use crate::chars::{decimal, push_decimal};
use crate::ids::{is_uuid, spec_is_uuid};
use crate::search::types::{Exchange, SearchOutcome};
use crate::stats::tally::{has_key, key_sorted, put};

verus! {

/// `--count-only`: the true total of matching exchanges, those a cap dropped included.
pub fn count_only_total(outcome: &SearchOutcome) -> (n: usize)
    requires
        outcome.exchanges@.len() + outcome.dropped_by_cap <= usize::MAX,
    ensures
        n == outcome.exchanges@.len() + outcome.dropped_by_cap,
{
    outcome.exchanges.len() + outcome.dropped_by_cap
}

/// Is `id` the owning session of some matched exchange?
pub open spec fn owns_match(exs: Seq<Exchange>, id: Seq<char>) -> bool {
    exists|e: int| 0 <= e < exs.len() && (#[trigger] exs[e]).parent_session_id@ == id
}

pub open spec fn keys_of(t: Seq<(String, ())>) -> Seq<Seq<char>> {
    t.map_values(|p: (String, ())| p.0@)
}

/// The `-l` listing: the owning sessions in text order, each once, and the cap's note.
pub open spec fn listing_ok(o: SearchOutcome, ids: Seq<String>, note: Option<String>) -> bool {
    &&& forall|i: int, j: int| 0 <= i < j < ids.len() ==> crate::stats::counts::lex_lt(#[trigger] ids[i]@, #[trigger] ids[j]@)
    &&& forall|id: Seq<char>| owns_match(o.exchanges@, id) <==> exists|i: int| 0 <= i < ids.len() && #[trigger] ids[i]@ == id
    &&& crate::model::opt_view(note) == (if o.dropped_by_cap > 0 {
        Some("csift: note: "@ + decimal(o.dropped_by_cap as nat)
            + " exchange(s) dropped by --max-count \u{2014} this session listing may be incomplete; raise --max-count"@)
    } else {
        None
    })
}

/// `-l`: each owning session of a matched exchange once, in text order, and the note that
/// the listing may be incomplete when the cap dropped exchanges. The listing is a plain id
/// stream, so a JSON request is refused.
pub fn sessions_with_matches(outcome: &SearchOutcome, json: bool) -> (r: Result<(Vec<String>, Option<String>), String>)
    ensures
        json ==> (r matches Err(m) && m@ == "-l prints a plain id stream; with --format json read the summary's `transcript_ids` instead"@),
        !json ==> (r matches Ok(x) && listing_ok(*outcome, x.0@, x.1)),
{
    proof {
        reveal_strlit("-l prints a plain id stream; with --format json read the summary's `transcript_ids` instead");
    }
    if json {
        return Err("-l prints a plain id stream; with --format json read the summary's `transcript_ids` instead".to_string());
    }
    let mut t: Vec<(String, ())> = Vec::new();
    let mut e: usize = 0;
    while e < outcome.exchanges.len()
        invariant
            e <= outcome.exchanges@.len(),
            key_sorted(t@),
            forall|q: Seq<char>| #[trigger] has_key(t@, q)
                <==> exists|x: int| 0 <= x < e && (#[trigger] outcome.exchanges@[x]).parent_session_id@ == q,
        decreases outcome.exchanges.len() - e,
    {
        put(&mut t, outcome.exchanges[e].parent_session_id.as_str(), ());
        proof {
            assert forall|q: Seq<char>| #[trigger] has_key(t@, q)
                <==> exists|x: int| 0 <= x < e + 1 && (#[trigger] outcome.exchanges@[x]).parent_session_id@ == q by {
                if q == outcome.exchanges@[e as int].parent_session_id@ {
                    assert(has_key(t@, q));
                }
            }
        }
        e = e + 1;
    }
    let mut ids: Vec<String> = Vec::new();
    let mut i: usize = 0;
    while i < t.len()
        invariant
            i <= t@.len(),
            key_sorted(t@),
            forall|q: Seq<char>| #[trigger] has_key(t@, q)
                <==> exists|x: int| 0 <= x < outcome.exchanges@.len() && (#[trigger] outcome.exchanges@[x]).parent_session_id@ == q,
            ids@.len() == i,
            forall|k: int| 0 <= k < i ==> (#[trigger] ids@[k])@ == t@[k].0@,
        decreases t.len() - i,
    {
        ids.push(t[i].0.clone());
        i = i + 1;
    }
    proof {
        assert forall|id: Seq<char>| owns_match(outcome.exchanges@, id)
            <==> exists|i: int| 0 <= i < ids@.len() && #[trigger] ids@[i]@ == id by {
            if owns_match(outcome.exchanges@, id) {
                assert(has_key(t@, id));
                let k = choose|k: int| 0 <= k < t@.len() && #[trigger] t@[k].0@ == id;
                assert(ids@[k]@ == id);
            }
            if exists|i: int| 0 <= i < ids@.len() && #[trigger] ids@[i]@ == id {
                let k = choose|k: int| 0 <= k < ids@.len() && #[trigger] ids@[k]@ == id;
                assert(t@[k].0@ == id);
                assert(has_key(t@, id));
            }
        }
    }
    let note = if outcome.dropped_by_cap > 0 {
        let mut s = String::new();
        s.append("csift: note: ");
        push_decimal(&mut s, outcome.dropped_by_cap as u64);
        s.append(" exchange(s) dropped by --max-count \u{2014} this session listing may be incomplete; raise --max-count");
        proof {
            reveal_strlit("");
            reveal_strlit("csift: note: ");
            reveal_strlit(" exchange(s) dropped by --max-count \u{2014} this session listing may be incomplete; raise --max-count");
        }
        Some(s)
    } else {
        None
    };
    assert forall|i: int, j: int| 0 <= i < j < ids@.len() implies crate::stats::counts::lex_lt(#[trigger] ids@[i]@, #[trigger] ids@[j]@) by {
        assert(ids@[i]@ == t@[i].0@);
        assert(ids@[j]@ == t@[j].0@);
    }
    assert(listing_ok(*outcome, ids@, note));
    Ok((ids, note))
}

/// The notes a query earns before it scans (standard error): a uuid-shaped pattern with
/// no session target is searched as text, and an empty pattern with no label, time, turn
/// or session filter matches every exchange in scope.
pub open spec fn spec_advisory_notes(pattern: Seq<char>, pure_filter: bool, labels_empty: bool, labels_not_empty: bool,
    has_turn_range: bool, window_unbounded: bool, has_session_filter: bool) -> Seq<Seq<char>> {
    (if spec_is_uuid(pattern) && !has_session_filter {
        seq!["csift: note: searching for this uuid as TEXT across the scope; to scope the search TO that session, pass it as a target: `csift search <PATTERN> @"@
            + pattern + "`"@]
    } else {
        seq![]
    }) + (if pure_filter && labels_empty && !labels_not_empty && !has_turn_range && window_unbounded && !has_session_filter {
        seq!["csift: warning: empty pattern with no category/time/turn/session filter matches every exchange in scope \u{2014} this may emit a lot."@]
    } else {
        seq![]
    })
}

/// See [`spec_advisory_notes`].
pub fn advisory_notes(pattern: &str, pure_filter: bool, labels_empty: bool, labels_not_empty: bool, has_turn_range: bool,
    window_unbounded: bool, has_session_filter: bool) -> (out: Vec<String>)
    ensures
        out@.map_values(|s: String| s@) == spec_advisory_notes(pattern@, pure_filter, labels_empty, labels_not_empty,
            has_turn_range, window_unbounded, has_session_filter),
{
    let mut out: Vec<String> = Vec::new();
    if is_uuid(pattern) && !has_session_filter {
        let mut s = String::new();
        s.append("csift: note: searching for this uuid as TEXT across the scope; to scope the search TO that session, pass it as a target: `csift search <PATTERN> @");
        s.append(pattern);
        s.append("`");
        out.push(s);
    }
    let ghost first = out@.map_values(|s: String| s@);
    if pure_filter && labels_empty && !labels_not_empty && !has_turn_range && window_unbounded && !has_session_filter {
        out.push("csift: warning: empty pattern with no category/time/turn/session filter matches every exchange in scope \u{2014} this may emit a lot.".to_string());
    }
    proof {
        reveal_strlit("");
    }
    assert(out@.map_values(|s: String| s@) =~= spec_advisory_notes(pattern@, pure_filter, labels_empty, labels_not_empty,
        has_turn_range, window_unbounded, has_session_filter));
    out
}

} // verus!
