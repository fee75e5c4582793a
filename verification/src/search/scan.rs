//! The raw-line decisions of a transcript scan: the role marker every message line
//! carries, the gated keeps beyond it, the per-line verdict of the whole-file gate, and
//! whether a transcript is a fork clone.

use vstd::prelude::*;
use vstd::utf8::encode_utf8;
use crate::search::engine::{memmem_find, occurs_at};
use crate::search::matcher::{Matcher, contains_any, contains_bytes, prefilter_may_match, spec_locate};
use crate::search::hits::RecordView;
use crate::model::{Record, opt_view, record_raw_text, spec_raw_text};

verus! {

/// JSON insignificant whitespace.
pub open spec fn json_ws(b: u8) -> bool {
    b == 0x20 || b == 0x09 || b == 0x0a || b == 0x0d
}

/// The index of the first non-whitespace byte at or after `i`.
pub open spec fn skip_ws(line: Seq<u8>, i: int) -> int
    decreases line.len() - i,
{
    if 0 <= i < line.len() && json_ws(line[i]) { skip_ws(line, i + 1) } else { i }
}

/// `needle` occurs at `i`.
pub open spec fn at(line: Seq<u8>, needle: Seq<u8>, i: int) -> bool {
    occurs_at(line, needle, i)
}

/// A role marker starts at `i`: `"role"`, optional whitespace, `:`, optional whitespace,
/// then `"user"` or `"assistant"`.
pub open spec fn role_marker_at(line: Seq<u8>, i: int) -> bool {
    let key = encode_utf8("\"role\""@);
    at(line, key, i) && {
        let c = skip_ws(line, i + key.len());
        0 <= c < line.len() && line[c] == 0x3a && {
            let v = skip_ws(line, c + 1);
            at(line, encode_utf8("\"user\""@), v) || at(line, encode_utf8("\"assistant\""@), v)
        }
    }
}

/// The line carries a user/assistant role marker, whitespace around the colon allowed.
pub open spec fn has_role_marker(line: Seq<u8>) -> bool {
    exists|i: int| 0 <= i < line.len() && role_marker_at(line, i)
}

fn lit(s: &str) -> (v: Vec<u8>)
    ensures
        v@ == encode_utf8(s@),
{
    vstd::slice::slice_to_vec(s.as_bytes())
}

fn skip_ws_exec(line: &[u8], i: usize) -> (j: usize)
    requires
        i <= line@.len(),
    ensures
        j as int == skip_ws(line@, i as int),
        i <= j <= line@.len(),
{
    let mut j = i;
    while j < line.len() && (line[j] == 0x20 || line[j] == 0x09 || line[j] == 0x0a || line[j] == 0x0d)
        invariant
            i <= j <= line@.len(),
            skip_ws(line@, i as int) == skip_ws(line@, j as int),
        decreases line.len() - j,
    {
        j = j + 1;
    }
    j
}

fn at_exec(line: &[u8], needle: &[u8], i: usize) -> (b: bool)
    ensures
        b == at(line@, needle@, i as int),
{
    if i > line.len() || needle.len() > line.len() - i {
        return false;
    }
    let lim = line.len();
    let mut k: usize = 0;
    while k < needle.len()
        invariant
            lim == line@.len(),
            i + needle@.len() <= line@.len(),
            k <= needle@.len(),
            forall|q: int| 0 <= q < k ==> line@[i + q] == needle@[q],
        decreases needle.len() - k,
    {
        if line[i + k] != needle[k] {
            assert(line@.subrange(i as int, i + needle@.len())[k as int] != needle@[k as int]);
            return false;
        }
        k = k + 1;
    }
    assert(line@.subrange(i as int, i + needle@.len()) =~= needle@);
    true
}

/// Does the raw line carry a user/assistant role marker? Serialization-tolerant:
/// whitespace around the colon is the same record.
pub fn line_has_role_marker(line: &[u8]) -> (b: bool)
    ensures
        b == has_role_marker(line@),
{
    let key = lit("\"role\"");
    let user = lit("\"user\"");
    let assistant = lit("\"assistant\"");
    let mut i: usize = 0;
    while i < line.len()
        invariant
            i <= line@.len(),
            key@ == encode_utf8("\"role\""@),
            user@ == encode_utf8("\"user\""@),
            assistant@ == encode_utf8("\"assistant\""@),
            forall|q: int| 0 <= q < i ==> !role_marker_at(line@, q),
        decreases line.len() - i,
    {
        if at_exec(line, key.as_slice(), i) {
            let c = skip_ws_exec(line, i + key.len());
            if c < line.len() && line[c] == 0x3a {
                let v = skip_ws_exec(line, c + 1);
                if at_exec(line, user.as_slice(), v) || at_exec(line, assistant.as_slice(), v) {
                    assert(role_marker_at(line@, i as int));
                    return true;
                }
            }
        }
        i = i + 1;
    }
    false
}

/// The gated keeps of a scan beyond the role marker; each is consulted only when its
/// gate is on.
#[derive(Debug, Clone, Copy)]
pub struct CandidateGates {
    /// The `compact_boundary` metrics record (a selector reaches its label).
    pub compact_boundary: bool,
    /// Hook-injected context attachments (`--additional-context`, or an address).
    pub hook_context: bool,
    /// Every attachment line (`--attachments`, or an address).
    pub attachments: bool,
    /// A channel delivery attachment (on by default).
    pub channel: bool,
    /// `queue-operation` lines.
    pub queued: bool,
    /// `system`/`turn_duration` lines.
    pub turn_duration: bool,
    /// `system`/`away_summary` lines.
    pub away_summary: bool,
    /// `system`/`stop_hook_summary` lines.
    pub stop_hooks: bool,
    /// `file-history-snapshot` and `-delta` lines.
    pub snapshot: bool,
    /// Every other `system` subtype.
    pub system: bool,
}

/// The needle of the channel envelope.
pub open spec fn channel_needle() -> Seq<char> {
    "<csift-channel"@
}

/// `s`'s bytes occur in the line.
pub open spec fn has(line: Seq<u8>, s: Seq<char>) -> bool {
    contains_bytes(line, encode_utf8(s))
}

/// Could the raw line be a transcript record the scan keeps?
pub open spec fn spec_candidate(line: Seq<u8>, g: CandidateGates) -> bool {
    has_role_marker(line)
        || (g.compact_boundary && has(line, "compact_boundary"@) && has(line, "\"subtype\""@))
        || (g.hook_context && has(line, "hook_additional_context"@))
        || (g.attachments && has(line, "\"attachment\""@))
        || (g.channel && has(line, channel_needle()))
        || (g.queued && has(line, "\"queue-operation\""@))
        || (g.turn_duration && has(line, "turn_duration"@))
        || (g.away_summary && has(line, "away_summary"@))
        || (g.stop_hooks && has(line, "stop_hook_summary"@))
        || (g.snapshot && has(line, "\"file-history-"@))
        || (g.system && has(line, "\"subtype\""@))
}

fn has_exec(line: &[u8], s: &str) -> (b: bool)
    ensures
        b == has(line@, s@),
{
    let n = lit(s);
    match memmem_find(line, n.as_slice()) {
        Some(i) => {
            assert(occurs_at(line@, n@, i as int));
            true
        },
        None => false,
    }
}

/// The category prefilter of a scan: keep a line that carries a role marker, or that a
/// gate admits by its own needle; drop everything else before decoding it.
pub fn line_is_transcript_candidate(line: &[u8], gates: &CandidateGates) -> (b: bool)
    ensures
        b == spec_candidate(line@, *gates),
{
    line_has_role_marker(line)
        || (gates.compact_boundary && has_exec(line, "compact_boundary") && has_exec(line, "\"subtype\""))
        || (gates.hook_context && has_exec(line, "hook_additional_context"))
        || (gates.attachments && has_exec(line, "\"attachment\""))
        || (gates.channel && has_exec(line, "<csift-channel"))
        || (gates.queued && has_exec(line, "\"queue-operation\""))
        || (gates.turn_duration && has_exec(line, "turn_duration"))
        || (gates.away_summary && has_exec(line, "away_summary"))
        || (gates.stop_hooks && has_exec(line, "stop_hook_summary"))
        || (gates.snapshot && has_exec(line, "\"file-history-"))
        || (gates.system && has_exec(line, "\"subtype\""))
}

/// The list scan's candidate: a line carrying a user/assistant role marker.
pub fn line_is_list_candidate(line: &[u8]) -> (b: bool)
    ensures
        b == has_role_marker(line@),
{
    line_has_role_marker(line)
}

/// What the whole-file gate makes of one line.
#[derive(Debug, Clone, Copy, PartialEq, Eq, Structural)]
pub enum GateVerdict {
    /// Not a candidate: the scan drops it (its syntax is still checked for the count).
    NotCandidate,
    /// The literal or a conservative marker is present: the file needs the full scan.
    ForceFull,
    /// A verifiable marker: render this line's marker texts again and check them.
    Marker,
    /// A candidate that provably cannot hit: only its syntax is checked.
    Validate,
}

/// The whole-file filter's verdict on one raw line.
pub open spec fn spec_gate_verdict(line: Seq<u8>, g: CandidateGates, m: Matcher) -> GateVerdict {
    if !spec_candidate(line, g) {
        GateVerdict::NotCandidate
    } else if (match m.prefilter { Some(p) => prefilter_may_match(p, line), None => true })
        || contains_any(line, m.synth_conservative@) {
        GateVerdict::ForceFull
    } else if contains_any(line, m.synth_verifiable@) {
        GateVerdict::Marker
    } else {
        GateVerdict::Validate
    }
}

/// The whole-file gate's per-line decision: a literal or conservative-marker hit forces
/// the full scan; a verifiable-marker line goes to the re-render check; any other
/// candidate cannot hit.
pub fn gate_verdict(line: &[u8], gates: &CandidateGates, matcher: &Matcher) -> (v: GateVerdict)
    ensures
        v == spec_gate_verdict(line@, *gates, *matcher),
{
    if !line_is_transcript_candidate(line, gates) {
        GateVerdict::NotCandidate
    } else if matcher.line_prefilter_hits(line) || matcher.synth_conservative_hits(line) {
        GateVerdict::ForceFull
    } else if matcher.synth_verifiable_hits(line) {
        GateVerdict::Marker
    } else {
        GateVerdict::Validate
    }
}

/// The first line (up to 4096 bytes) of a transcript carries a `fork-context-ref`
/// record: the transcript is a clone of its parent's.
pub open spec fn spec_head_is_fork(bytes: Seq<u8>) -> bool {
    let nl = if exists|i: int| 0 <= i < bytes.len() && bytes[i] == 0x0a {
        choose|i: int| 0 <= i < bytes.len() && bytes[i] == 0x0a && forall|j: int| 0 <= j < i ==> bytes[j] != 0x0a
    } else {
        bytes.len() as int
    };
    let end = if nl < 4096 { nl } else { 4096 };
    contains_bytes(bytes.take(end), encode_utf8("fork-context-ref"@))
}

/// Is the transcript a fork clone?
pub fn head_is_fork(bytes: &[u8]) -> (b: bool)
    ensures
        b == spec_head_is_fork(bytes@),
{
    let mut nl: usize = 0;
    while nl < bytes.len() && bytes[nl] != 0x0a
        invariant
            nl <= bytes@.len(),
            forall|j: int| 0 <= j < nl ==> bytes@[j] != 0x0a,
        decreases bytes.len() - nl,
    {
        nl = nl + 1;
    }
    proof {
        if nl < bytes@.len() {
            let c = choose|i: int| 0 <= i < bytes@.len() && bytes@[i] == 0x0a && forall|j: int| 0 <= j < i ==> bytes@[j] != 0x0a;
            if c < nl { assert(bytes@[c] != 0x0a); }
            if c > nl { assert(bytes@[nl as int] == 0x0a); }
        }
    }
    let end = if nl < 4096 { nl } else { 4096 };
    let head = vstd::slice::slice_subrange(bytes, 0, end);
    assert(head@ =~= bytes@.take(end as int));
    let n = lit("fork-context-ref");
    match memmem_find(head, n.as_slice()) {
        Some(i) => {
            assert(occurs_at(head@, n@, i as int));
            true
        },
        None => false,
    }
}

/// The matcher locates `t`.
pub open spec fn located(m: Matcher, t: Option<Seq<char>>) -> bool {
    t matches Some(x) && spec_locate(m, x) is Some
}

/// Could one of a marker line's synthesized texts hit: its record-level texts, the
/// answered-question reconstruction, or the text a raw-text record renders?
pub open spec fn spec_synth_texts_match(m: Matcher, rec: Record, v: RecordView) -> bool {
    ||| located(m, opt_view(v.texts.reconstructed))
    ||| located(m, opt_view(v.texts.automation))
    ||| located(m, opt_view(v.texts.raw))
    ||| located(m, opt_view(v.user_dual_text))
    ||| located(m, spec_raw_text(rec))
}

fn locates(m: &Matcher, t: &Option<String>) -> (b: bool)
    ensures
        b == located(*m, opt_view(*t)),
{
    match t {
        Some(x) => m.locate(x.as_str()).is_some(),
        None => false,
    }
}

/// Second stage of the whole-file gate for one parsed marker line: render its
/// synthesized texts again and check them with the matcher.
pub fn synth_texts_match(matcher: &Matcher, rec: &Record, v: &RecordView) -> (b: bool)
    ensures
        b == spec_synth_texts_match(*matcher, *rec, *v),
{
    if locates(matcher, &v.texts.reconstructed) || locates(matcher, &v.texts.automation)
        || locates(matcher, &v.texts.raw) || locates(matcher, &v.user_dual_text) {
        return true;
    }
    let raw = record_raw_text(rec);
    locates(matcher, &raw)
}

/// What a marker line collected by the whole-file gate turned out to be.
#[derive(Debug, Clone, Copy, PartialEq, Eq, Structural)]
pub enum MarkerCheck {
    /// A record; whether its synthesized texts hit.
    Texts(bool),
    /// A line that holds no record.
    NoRecord,
    /// A line that does not parse.
    Malformed,
}

/// The malformed marker lines among `ms`.
pub open spec fn malformed_markers(ms: Seq<MarkerCheck>) -> nat
    decreases ms.len(),
{
    if ms.len() == 0 { 0 } else { malformed_markers(ms.drop_last()) + if ms.last() == MarkerCheck::Malformed { 1nat } else { 0nat } }
}

/// The whole-file gate's decision: the file needs the full scan (`None`) when a line forced
/// it or a marker line's synthesized texts hit; otherwise no line can hit, and the file is
/// skipped with its malformed lines counted (those of the pre-scan and the malformed
/// marker lines).
pub fn file_gate_decision(forced: bool, pre_skipped: usize, markers: &Vec<MarkerCheck>) -> (r: Option<usize>)
    requires
        pre_skipped + markers@.len() <= usize::MAX,
    ensures
        r is None <==> (forced || markers@.contains(MarkerCheck::Texts(true))),
        r matches Some(n) ==> n == pre_skipped + malformed_markers(markers@),
{
    if forced {
        return None;
    }
    let mut skipped = pre_skipped;
    let mut i: usize = 0;
    while i < markers.len()
        invariant
            i <= markers@.len(),
            pre_skipped + markers@.len() <= usize::MAX,
            skipped == pre_skipped + malformed_markers(markers@.take(i as int)),
            malformed_markers(markers@.take(i as int)) <= i,
            forall|k: int| 0 <= k < i ==> markers@[k] != MarkerCheck::Texts(true),
        decreases markers.len() - i,
    {
        assert(markers@.take(i as int + 1).drop_last() =~= markers@.take(i as int));
        match markers[i] {
            MarkerCheck::Texts(true) => {
                assert(markers@[i as int] == MarkerCheck::Texts(true));
                return None;
            },
            MarkerCheck::Malformed => {
                skipped = skipped + 1;
            },
            _ => {},
        }
        i = i + 1;
    }
    assert(markers@.take(markers@.len() as int) =~= markers@);
    Some(skipped)
}

} // verus!
