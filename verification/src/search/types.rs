//! Search output types: pairing state, the survival-axis totals, hits, exchanges and
//! the outcome of a run.

use vstd::prelude::*;
use crate::labels::Class;

verus! {

/// Max characters of a matched excerpt shown inline before truncation; truncation is
/// always explicit (`… (+N chars)`). Longer than `list`'s cap on purpose: a search hit
/// wants enough of the matched exchange to be useful in context.
pub const EXCERPT_MAX: usize = 400;

/// The `agent.tool.use ▹ agent.tool.result` pairing state of a tool hit, joined by
/// `tool_use_id` across the transcript.
#[derive(Debug, Clone, Copy, PartialEq, Eq, Structural)]
pub enum Pairing {
    /// The use↔result partner is in scope.
    Paired,
    /// An `agent.tool.use` whose `tool_result` is not in scope.
    PendingNoResult,
    /// An `agent.tool.result` whose `tool_use` is not in scope.
    OrphanResult,
}

/// The survival-axis totals a scan discloses. All zero on a transcript whose
/// conversation chain reaches everything.
#[derive(Debug, Clone)]
pub struct ChainCounts {
    /// Records off the chain in a region the chain resolved.
    pub abandoned_records: usize,
    /// Abandoned openers with no assistant descendant.
    pub drafts: usize,
    /// Abandoned openers with one.
    pub rewound_turns: usize,
    /// Lines carrying a uuid a later line also carries.
    pub replay_copies: usize,
    /// The 1-based line of the newest `compact_boundary` the chain stopped at, when
    /// exactly one transcript is in scope.
    pub boundary_cut_line: Option<usize>,
    /// How the chain's leaf was chosen, when exactly one transcript is in scope.
    pub leaf_source: Option<&'static str>,
    /// How many transcripts `add` has folded into this total (0 on the counts of one
    /// transcript as a scan produces them).
    pub transcripts: usize,
}

/// Folding `b` (one transcript) into the total `a`: the counters are summed, one more
/// transcript is counted, and the single-transcript facts are taken from `b` when `a`
/// holds no transcript yet, and dropped as soon as a second one contributes.
pub open spec fn chain_sum(a: ChainCounts, b: ChainCounts) -> ChainCounts {
    let first = a.transcripts == 0;
    ChainCounts {
        abandoned_records: (a.abandoned_records + b.abandoned_records) as usize,
        drafts: (a.drafts + b.drafts) as usize,
        rewound_turns: (a.rewound_turns + b.rewound_turns) as usize,
        replay_copies: (a.replay_copies + b.replay_copies) as usize,
        boundary_cut_line: if first { b.boundary_cut_line } else { None },
        leaf_source: if first { b.leaf_source } else { None },
        transcripts: (a.transcripts + 1) as usize,
    }
}

/// The sums `chain_sum` takes fit in `usize`.
pub open spec fn chain_sum_fits(a: ChainCounts, b: ChainCounts) -> bool {
    &&& a.abandoned_records + b.abandoned_records <= usize::MAX
    &&& a.drafts + b.drafts <= usize::MAX
    &&& a.rewound_turns + b.rewound_turns <= usize::MAX
    &&& a.replay_copies + b.replay_copies <= usize::MAX
    &&& a.transcripts + 1 <= usize::MAX
}

/// Is there anything to disclose?
pub open spec fn chain_any(c: ChainCounts) -> bool {
    c.abandoned_records > 0 || c.replay_copies > 0 || c.boundary_cut_line is Some
}

impl ChainCounts {
    /// All zero, no single-transcript facts, no transcript folded in.
    pub fn new() -> (c: ChainCounts)
        ensures
            c.abandoned_records == 0 && c.drafts == 0 && c.rewound_turns == 0 && c.replay_copies == 0,
            c.boundary_cut_line is None,
            c.leaf_source is None,
            c.transcripts == 0,
    {
        ChainCounts {
            abandoned_records: 0,
            drafts: 0,
            rewound_turns: 0,
            replay_copies: 0,
            boundary_cut_line: None,
            leaf_source: None,
            transcripts: 0,
        }
    }

    /// Fold one transcript's counts into the scope total. The two single-transcript facts
    /// are dropped the moment a second transcript contributes.
    pub fn add(&mut self, other: &ChainCounts)
        requires
            chain_sum_fits(*old(self), *other),
        ensures
            *final(self) == chain_sum(*old(self), *other),
    {
        let first = self.is_empty();
        self.abandoned_records = self.abandoned_records + other.abandoned_records;
        self.drafts = self.drafts + other.drafts;
        self.rewound_turns = self.rewound_turns + other.rewound_turns;
        self.replay_copies = self.replay_copies + other.replay_copies;
        self.transcripts = self.transcripts + 1;
        if first {
            self.boundary_cut_line = other.boundary_cut_line;
            self.leaf_source = other.leaf_source;
        } else {
            self.boundary_cut_line = None;
            self.leaf_source = None;
        }
    }

    /// No transcript has been folded in yet.
    pub fn is_empty(&self) -> (b: bool)
        ensures
            b == (self.transcripts == 0),
    {
        self.transcripts == 0
    }

    /// Is there anything to disclose at all?
    pub fn any(&self) -> (b: bool)
        ensures
            b == chain_any(*self),
    {
        self.abandoned_records > 0 || self.replay_copies > 0 || self.boundary_cut_line.is_some()
    }
}

impl Default for ChainCounts {
    fn default() -> (c: ChainCounts)
        ensures
            c.abandoned_records == 0 && c.drafts == 0 && c.rewound_turns == 0 && c.replay_copies == 0,
            c.boundary_cut_line is None,
            c.leaf_source is None,
            c.transcripts == 0,
    {
        ChainCounts::new()
    }
}

/// Folding is associative on the counters: grouping the transcripts differently gives
/// the same totals.
pub proof fn lemma_chain_sum_counters_associative(a: ChainCounts, b: ChainCounts, c: ChainCounts)
    requires
        chain_sum_fits(a, b),
        chain_sum_fits(chain_sum(a, b), c),
        chain_sum_fits(b, c),
        chain_sum_fits(a, chain_sum(b, c)),
    ensures
        chain_sum(chain_sum(a, b), c).abandoned_records == chain_sum(a, chain_sum(b, c)).abandoned_records,
        chain_sum(chain_sum(a, b), c).drafts == chain_sum(a, chain_sum(b, c)).drafts,
        chain_sum(chain_sum(a, b), c).rewound_turns == chain_sum(a, chain_sum(b, c)).rewound_turns,
        chain_sum(chain_sum(a, b), c).replay_copies == chain_sum(a, chain_sum(b, c)).replay_copies,
{
}

/// Once a second transcript is folded into a total, neither single-transcript fact
/// survives, whatever the first transcript carried (an empty file included): a line
/// number from an unnamed file is never reported.
pub proof fn lemma_chain_sum_drops_single_facts(a: ChainCounts, b: ChainCounts)
    requires
        a.transcripts >= 1,
    ensures
        chain_sum(a, b).boundary_cut_line is None,
        chain_sum(a, b).leaf_source is None,
{
}

/// Folding the first transcript into an empty total keeps its single-transcript facts.
pub proof fn lemma_chain_sum_first_keeps_single_facts(a: ChainCounts, b: ChainCounts)
    requires
        a.transcripts == 0,
    ensures
        chain_sum(a, b).boundary_cut_line == b.boundary_cut_line,
        chain_sum(a, b).leaf_source == b.leaf_source,
        chain_sum(a, b).transcripts == 1,
{
}

/// A single label-tagged hit inside an exchange.
#[derive(Debug, Clone)]
pub struct Hit {
    /// The matched leaf; `None` only for an explicitly addressed record that no label
    /// models.
    pub class: Option<Class>,
    /// The full label set the record carries.
    pub labels: Vec<Class>,
    /// The matched text excerpt (whitespace-normalized, explicitly truncated).
    pub excerpt: String,
    pub timestamp_utc: Option<String>,
    /// Tool name of a tool-use / tool-result hit.
    pub tool_name: Option<String>,
    /// The source record's `message.model`.
    pub model: Option<String>,
    /// The source record's attachment payload `type`.
    pub attachment_type: Option<String>,
    /// The source record's agent `version` stamp.
    pub version: Option<String>,
    /// Result-side error state: `Some(true)` for an `is_error` tool_result, `Some(false)`
    /// for a clean one, `None` off a tool_result.
    pub is_error: Option<bool>,
    /// `from ⇨ to` of a communication hit.
    pub direction: Option<(String, String)>,
    /// The block's `tool_use_id`, for the pairing join.
    pub tool_use_id: Option<String>,
    /// The resolved pairing of a tool hit.
    pub pair: Option<Pairing>,
    /// 1-based physical line of the source record; 0 when not located.
    pub line: usize,
    /// The source record's `uuid`.
    pub uuid: Option<String>,
    /// The verbatim source line, under `--raw` only.
    pub raw: Option<String>,
    /// Stable image ids the source record carries.
    pub image_ids: Vec<String>,
    /// True for a hit from an elicitation-sidecar record (no physical line).
    pub from_sidecar: bool,
    /// The queue event of a `user.queued` hit.
    pub queue_operation: Option<String>,
    /// The `remove` reason of a queue event.
    pub queue_reason: Option<String>,
    /// The record's delivery override, when it disagrees with the leaf default.
    pub delivery: Option<bool>,
    /// On a resume-placeholder hit: whether it closes a resume repair pair.
    pub resume_paired: Option<bool>,
    /// True when the excerpt was clipped to fit the default cap.
    pub truncated: bool,
}

/// A complete reconstructed request/response exchange containing the hit(s).
#[derive(Debug)]
pub struct Exchange {
    /// The transcript's own id (a session uuid, or a subagent's bare id).
    pub session_id: String,
    /// True when the exchange came from a subagent transcript.
    pub is_subagent: bool,
    /// The owning top-level session uuid.
    pub parent_session_id: String,
    /// 0-based turn index; `None` for a record the conversation chain no longer reaches.
    pub turn_index: Option<usize>,
    /// The turn-opening record's timestamp (ISO-8601 UTC).
    pub started_utc: Option<String>,
    pub hits: Vec<Hit>,
    /// Non-matched records of the turn, under `--siblings`.
    pub siblings: Vec<Hit>,
    /// How many sibling units the fixed policy capped away.
    pub siblings_hidden: usize,
    /// The turn's physical line span `[first, last]` (`(0, 0)` when unknown).
    pub turn_lines: (usize, usize),
    /// Uuids of every record stitched into this exchange.
    pub record_uuids: Vec<String>,
    /// True for an abandoned unit outside turn numbering.
    pub superseded_draft: bool,
}

/// Outcome of a search run, with the no-silent-truncation accounting.
#[derive(Debug)]
pub struct SearchOutcome {
    pub exchanges: Vec<Exchange>,
    /// Matching exchanges before any `--max-count` window.
    pub total_matched: usize,
    /// Distinct matching transcripts before the cap.
    pub total_sessions: usize,
    /// Matching exchanges dropped by `--max-count`.
    pub dropped_by_cap: usize,
    /// Malformed lines skipped while scanning.
    pub skipped_lines: usize,
    /// What the survival axis found.
    pub chain: ChainCounts,
    /// Scope-span counts of the resolved transcript set.
    pub scope_top: usize,
    pub scope_sub: usize,
}

} // verus!
