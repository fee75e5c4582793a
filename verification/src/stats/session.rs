//! One session's aggregates, computed from the kept lines of its transcript scan.

use vstd::prelude::*;
use crate::model::{Record, opt_view};
use crate::range::{RangeSpec, endpoint_at};
use crate::search::turns::{group_turns, lemma_turn_members_in_range, spec_turns};
use crate::stats::counts::{admitted, admitted_records, block_censuses, cap_usize, compaction_count, count_live_turns,
    derefs, first_ts, last_ts, live_turn_count, narration_keys, record_counts, span, tool_keys, type_count,
    unknown_tag_count};
use crate::stats::lines::{StatsLine, occurrences, row_views, spec_admit, split_kept, stats_rows, type_keys, admit_rows};
use crate::stats::tally::{count_of, has_key, key_sorted, value_at};
use crate::stats::tokens::{TokenSums, agrees, cap_u64, has_usage, token_sums, token_total};
use crate::time_window::TimeWindow;
use crate::subagent::{is_subagent_path, parent_session_id_from_path, session_id_from_path, spec_is_subagent_path,
    spec_parent_session_id, spec_session_id};

verus! {

/// The whole-file facts of the conversation chain: turn openers it no longer reaches
/// (`drafts` never answered, `rewound_turns` answered before a rewind) and lines a
/// compaction re-anchor re-appended.
#[derive(Debug, Clone, Copy)]
pub struct ChainFacts {
    pub drafts: usize,
    pub rewound_turns: usize,
    pub replay_copies: usize,
}

/// One session's aggregates.
#[derive(Debug, Clone)]
pub struct SessionStats {
    pub session_id: String,
    pub is_subagent: bool,
    pub parent_session_id: String,
    /// Physical lines of the file.
    pub lines: usize,
    pub user_records: usize,
    pub assistant_records: usize,
    /// Live turns with at least one counted record.
    pub turns: usize,
    /// `tool name → calls`, in name order.
    pub tools: Vec<(String, usize)>,
    /// `model → token sums`, in model order.
    pub tokens: Vec<(String, TokenSums)>,
    pub first_utc: Option<String>,
    pub last_utc: Option<String>,
    pub compactions: usize,
    pub skipped_lines: usize,
    /// Every kept line by its top-level `type`: a whole-file fact, never windowed.
    pub line_types: Vec<(String, usize)>,
    /// Narration thinking blocks per model.
    pub narration_blocks: Vec<(String, usize)>,
    /// Thinking blocks whose signature tag is neither thinking nor narration.
    pub unknown_thinking_tags: usize,
    pub abandoned_turns: usize,
    pub rewound_turns: usize,
    pub replay_copies: usize,
}

/// How many newline bytes `b` holds.
pub open spec fn newline_count(b: Seq<u8>) -> int
    decreases b.len(),
{
    if b.len() == 0 {
        0
    } else {
        newline_count(b.drop_last()) + (if b.last() == 10u8 { 1int } else { 0int })
    }
}

/// Physical lines: the newlines, plus one for a torn final fragment.
pub open spec fn physical_lines(b: Seq<u8>) -> int {
    newline_count(b) + (if b.len() > 0 && b.last() != 10u8 { 1int } else { 0int })
}

proof fn lemma_newline_bound(b: Seq<u8>)
    ensures
        0 <= newline_count(b) <= b.len(),
        b.len() > 0 && b.last() != 10u8 ==> newline_count(b) < b.len(),
    decreases b.len(),
{
    if b.len() > 0 {
        lemma_newline_bound(b.drop_last());
    }
}

/// `memchr::memchr_iter(b'\n', bytes).count()`: the iterator yields every position of the
/// byte in the haystack, so its count is the number of newline bytes.
#[verifier::external_body]
fn count_newlines(bytes: &[u8]) -> (n: usize)
    ensures
        n == newline_count(bytes@),
{
    memchr::memchr_iter(b'\n', bytes).count()
}

/// See [`physical_lines`].
pub fn line_count(bytes: &[u8]) -> (n: usize)
    ensures
        n == physical_lines(bytes@),
{
    proof { lemma_newline_bound(bytes@); }
    let n = count_newlines(bytes);
    if bytes.len() > 0 && bytes[bytes.len() - 1] != 10u8 {
        n + 1
    } else {
        n
    }
}

/// The `--turn` bounds over `n` live turns.
pub open spec fn spec_bounds(turn_range: Option<RangeSpec>, n: nat) -> Option<(usize, usize)> {
    match turn_range {
        Some(r) => Some((endpoint_at(r.start, n, false, true) as usize, endpoint_at(r.end, n, false, false) as usize)),
        None => None,
    }
}

/// Which rows the windows admit.
pub open spec fn admission(kept: Seq<StatsLine>, opens: Seq<bool>, skip: Seq<bool>, w: TimeWindow,
    turn_range: Option<RangeSpec>) -> Seq<bool>
{
    let rows = stats_rows(kept);
    let g = spec_turns(opens, skip);
    Seq::new(rows.len(), |i: int| spec_admit(rows, i, w, g, spec_bounds(turn_range, g.len())))
}

/// The records the counts range over.
pub open spec fn counted(kept: Seq<StatsLine>, opens: Seq<bool>, skip: Seq<bool>, w: TimeWindow,
    turn_range: Option<RangeSpec>) -> Seq<Record>
{
    admitted(stats_rows(kept), admission(kept, opens, skip, w, turn_range), stats_rows(kept).len() as int)
}

/// Does `s` hold exactly the aggregates of one file?
pub open spec fn is_session_stats(s: SessionStats, path: Seq<char>, bytes: Seq<u8>, kept: Seq<StatsLine>,
    skipped: usize, chain: ChainFacts, opens: Seq<bool>, skip: Seq<bool>, w: TimeWindow,
    turn_range: Option<RangeSpec>) -> bool
{
    let a = counted(kept, opens, skip, w, turn_range);
    let g = spec_turns(opens, skip);
    &&& s.session_id@ == spec_session_id(path)
    &&& s.is_subagent == spec_is_subagent_path(path)
    &&& s.parent_session_id@ == match spec_parent_session_id(path) {
        Some(p) => p,
        None => spec_session_id(path),
    }
    &&& s.lines == physical_lines(bytes)
    &&& s.skipped_lines == skipped
    &&& key_sorted(s.line_types@)
    &&& forall|k: Seq<char>| #[trigger] count_of(s.line_types@, k) == occurrences(type_keys(kept), k)
    &&& forall|k: Seq<char>| #[trigger] has_key(s.line_types@, k) <==> type_keys(kept).contains(k)
    &&& s.user_records == type_count(a, "user"@)
    &&& s.assistant_records == type_count(a, "assistant"@)
    &&& s.compactions == compaction_count(a)
    &&& opt_view(s.first_utc) == first_ts(a)
    &&& opt_view(s.last_utc) == last_ts(a)
    &&& key_sorted(s.tools@)
    &&& forall|k: Seq<char>| #[trigger] has_key(s.tools@, k) <==> tool_keys(a).contains(k)
    &&& forall|k: Seq<char>| #[trigger] count_of(s.tools@, k) == cap_usize(occurrences(tool_keys(a), k))
    &&& key_sorted(s.narration_blocks@)
    &&& forall|k: Seq<char>| #[trigger] has_key(s.narration_blocks@, k) <==> narration_keys(a).contains(k)
    &&& forall|k: Seq<char>| #[trigger] count_of(s.narration_blocks@, k) == cap_usize(occurrences(narration_keys(a), k))
    &&& s.unknown_thinking_tags == cap_usize(unknown_tag_count(a))
    &&& key_sorted(s.tokens@)
    &&& forall|m: Seq<char>| #[trigger] has_key(s.tokens@, m) <==> has_usage(a, m)
    &&& forall|m: Seq<char>| #[trigger] value_at(s.tokens@, m) matches Some(t)
        ==> agrees(t, |f: int| cap_u64(token_total(a, m, f)))
    &&& s.turns == live_turn_count(g, admission(kept, opens, skip, w, turn_range), g.len() as int)
    &&& s.abandoned_turns == chain.drafts + chain.rewound_turns
    &&& s.rewound_turns == chain.rewound_turns
    &&& s.replay_copies == chain.replay_copies
}

/// The aggregates of one transcript: `bytes` is the file, `kept` the lines its scan kept
/// (in file order), `skipped` how many lines were malformed, `chain` the chain's
/// whole-file facts and `opens`/`skip` its per-row turn openers and off-chain rows.
/// `turns` counts live turns — the numbering `search` prints and `show --turn` addresses —
/// that hold at least one counted record; `--turn` membership is taken on the full
/// transcript's turn order before the time filter, then both must admit a record.
pub fn stats_one_file(path: &str, bytes: &[u8], kept: &Vec<StatsLine>, skipped: usize, chain: ChainFacts,
    opens: &[bool], skip: &[bool], window: &TimeWindow, turn_range: Option<RangeSpec>) -> (s: SessionStats)
    requires
        opens@.len() == skip@.len(),
        opens@.len() == stats_rows(kept@).len(),
        chain.drafts + chain.rewound_turns <= usize::MAX,
    ensures
        is_session_stats(s, path@, bytes@, kept@, skipped, chain, opens@, skip@, *window, turn_range),
{
    let session_id = session_id_from_path(path);
    let is_subagent = is_subagent_path(path);
    let parent_session_id = match parent_session_id_from_path(path) {
        Some(p) => p,
        None => session_id.clone(),
    };
    let lines = line_count(bytes);
    let (line_types, rows) = split_kept(kept);
    let groups = group_turns(opens, skip);
    let ghost g = spec_turns(opens@, skip@);
    let bounds: Option<(usize, usize)> = match &turn_range {
        Some(r) => Some(r.resolve(groups.len(), false)),
        None => None,
    };
    let adm = admit_rows(&rows, opens, skip, &groups, window, bounds);
    let counted_recs = admitted_records(&rows, &adm);
    let (user_records, assistant_records, compactions) = record_counts(&counted_recs);
    let (first_utc, last_utc) = span(&counted_recs);
    let (tools, narration_blocks, unknown_thinking_tags) = block_censuses(&counted_recs);
    let tokens = token_sums(&counted_recs);
    proof {
        lemma_turn_members_in_range(opens@, skip@);
        assert(row_views(rows@) == rows@.map_values(|p: (&Record, bool)| (*p.0, p.1)));
        assert(adm@ =~= admission(kept@, opens@, skip@, *window, turn_range));
    }
    let turns = count_live_turns(&groups, &adm, Ghost(g));
    SessionStats {
        session_id,
        is_subagent,
        parent_session_id,
        lines,
        user_records,
        assistant_records,
        turns,
        tools,
        tokens,
        first_utc,
        last_utc,
        compactions,
        skipped_lines: skipped,
        line_types,
        narration_blocks,
        unknown_thinking_tags,
        abandoned_turns: chain.drafts + chain.rewound_turns,
        rewound_turns: chain.rewound_turns,
        replay_copies: chain.replay_copies,
    }
}

} // verus!
