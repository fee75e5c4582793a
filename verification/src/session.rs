//! `list`: one identity row per session, from the first person-typed user turn (the head)
//! and the newest user turn and agent reply (the tail).

use vstd::prelude::*;
use crate::model::{agent_text, opt_view, spec_agent_text, spec_user_turn_text, user_turn_text, Record};
use crate::subagent::{
    is_subagent_path, lex_le, parent_session_id_from_path, session_id_from_path, spec_is_subagent_path,
    spec_parent_session_id, spec_session_id, str_le,
};
use crate::text::truncated;

verus! {

/// Max chars of a `list` preview before the explicit `… (+N chars)` marker: a dense,
/// at-a-glance identity index wants short rows.
pub const EXCERPT_MAX: usize = 200;

/// A short, timestamped preview of one message.
#[derive(Debug, Clone)]
pub struct MessagePreview {
    /// Raw ISO-8601 UTC timestamp, if the record had one.
    pub timestamp_utc: Option<String>,
    /// One-line excerpt of the message text.
    pub excerpt: String,
}

/// One row of `list` output.
#[derive(Debug, Clone)]
pub struct SessionSummary {
    pub session_id: String,
    /// True for a subagent transcript (its `session_id` is a bare agent id).
    pub is_subagent: bool,
    /// The re-feedable owning session id (`session_id` itself for a top-level row).
    pub parent_session_id: String,
    pub path: String,
    pub cwd: Option<String>,
    pub version: Option<String>,
    pub git_branch: Option<String>,
    pub first_user: Option<MessagePreview>,
    pub last_user: Option<MessagePreview>,
    pub last_agent: Option<MessagePreview>,
    /// Malformed lines skipped while reading this session (never hidden).
    pub skipped_lines: usize,
    /// One-line renders of the unresolved pending elicitations merged from the sidecar.
    pub pending_elicitations: Vec<String>,
    /// True when the session's elicitation sidecar file exists at all.
    pub sidecar_present: bool,
}

/// Truncate to [`EXCERPT_MAX`] chars with the explicit `… (+N chars)` marker.
pub fn truncate_excerpt(s: &str) -> (out: String)
    ensures
        out@ == truncated(s@, EXCERPT_MAX as nat),
{
    crate::text::truncate_excerpt(s, EXCERPT_MAX)
}

impl MessagePreview {
    /// A preview of `text`, truncated to [`EXCERPT_MAX`].
    pub fn from(timestamp_utc: Option<String>, text: &str) -> (p: MessagePreview)
        ensures
            p.timestamp_utc == timestamp_utc,
            p.excerpt@ == truncated(text@, EXCERPT_MAX as nat),
    {
        MessagePreview { timestamp_utc, excerpt: truncate_excerpt(text) }
    }
}

/// Fill each still-empty identity field from `rec`; a field already set is kept.
pub fn capture_identity_if_empty(
    rec: &Record,
    cwd: &mut Option<String>,
    version: &mut Option<String>,
    git_branch: &mut Option<String>,
    data_session_id: &mut Option<String>,
)
    ensures
        *final(cwd) == (if old(cwd).is_none() { rec.cwd } else { *old(cwd) }),
        *final(version) == (if old(version).is_none() { rec.version } else { *old(version) }),
        *final(git_branch) == (if old(git_branch).is_none() { rec.git_branch } else { *old(git_branch) }),
        *final(data_session_id) == (if old(data_session_id).is_none() { rec.session_id } else { *old(data_session_id) }),
{
    if cwd.is_none() {
        *cwd = rec.cwd.clone();
    }
    if version.is_none() {
        *version = rec.version.clone();
    }
    if git_branch.is_none() {
        *git_branch = rec.git_branch.clone();
    }
    if data_session_id.is_none() {
        *data_session_id = rec.session_id.clone();
    }
}

/// The `list` preview body of a record: the text a person typed into a user turn.
pub fn preview_text(rec: &Record) -> (r: Option<String>)
    ensures
        opt_view(r) == spec_user_turn_text(*rec),
{
    user_turn_text(rec)
}

/// The later of two optional instants (ISO-8601 UTC text orders chronologically).
pub open spec fn later(a: Option<Seq<char>>, b: Option<Seq<char>>) -> Option<Seq<char>> {
    match (a, b) {
        (None, _) => b,
        (_, None) => a,
        (Some(x), Some(y)) => if lex_le(x, y) { Some(y) } else { Some(x) },
    }
}

pub open spec fn preview_ts(p: Option<MessagePreview>) -> Option<Seq<char>> {
    match p {
        Some(m) => opt_view(m.timestamp_utc),
        None => None,
    }
}

/// A session's most recent activity: the latest of its three preview timestamps.
pub open spec fn spec_last_activity(s: SessionSummary) -> Option<Seq<char>> {
    later(later(preview_ts(s.first_user), preview_ts(s.last_user)), preview_ts(s.last_agent))
}

fn preview_ts_exec(p: &Option<MessagePreview>) -> (r: Option<&String>)
    ensures
        match r {
            Some(t) => preview_ts(*p) == Some(t@),
            None => preview_ts(*p) is None,
        },
{
    match p {
        Some(m) => m.timestamp_utc.as_ref(),
        None => None,
    }
}

fn later_exec<'a>(a: Option<&'a String>, b: Option<&'a String>) -> (r: Option<&'a String>)
    ensures
        match r {
            Some(t) => later(
                match a { Some(x) => Some(x@), None => None },
                match b { Some(x) => Some(x@), None => None },
            ) == Some(t@),
            None => later(
                match a { Some(x) => Some(x@), None => None },
                match b { Some(x) => Some(x@), None => None },
            ) is None,
        },
{
    match (a, b) {
        (None, _) => b,
        (_, None) => a,
        (Some(x), Some(y)) => if str_le(x.as_str(), y.as_str()) { Some(y) } else { Some(x) },
    }
}

/// `t`, when present, is no later than `r`.
pub open spec fn no_later(t: Option<Seq<char>>, r: Seq<char>) -> bool {
    match t {
        Some(x) => lex_le(x, r),
        None => true,
    }
}

proof fn lemma_lex_refl(a: Seq<char>)
    ensures
        lex_le(a, a),
    decreases a.len(),
{
    if a.len() > 0 {
        lemma_lex_refl(a.drop_first());
    }
}

proof fn lemma_later_is_max(a: Option<Seq<char>>, b: Option<Seq<char>>)
    ensures
        later(a, b) is None <==> (a is None && b is None),
        later(a, b) matches Some(r) ==> (a == Some(r) || b == Some(r)),
        later(a, b) matches Some(r) ==> (no_later(a, r) && no_later(b, r)),
{
    match (a, b) {
        (Some(x), Some(y)) => {
            lemma_lex_refl(x);
            lemma_lex_refl(y);
            crate::show::plan::lemma_lex_total(x, y);
        },
        (Some(x), None) => { lemma_lex_refl(x); },
        (None, Some(y)) => { lemma_lex_refl(y); },
        (None, None) => {},
    }
}

/// A session's most recent activity is the latest of its three preview timestamps: it is
/// one of them, no present one is later, and there is none only when none is present.
pub proof fn lemma_last_activity_is_latest(s: SessionSummary)
    ensures
        spec_last_activity(s) is None <==> (preview_ts(s.first_user) is None && preview_ts(s.last_user) is None
            && preview_ts(s.last_agent) is None),
        spec_last_activity(s) matches Some(r) ==> (preview_ts(s.first_user) == Some(r)
            || preview_ts(s.last_user) == Some(r) || preview_ts(s.last_agent) == Some(r)),
        spec_last_activity(s) matches Some(r) ==> (no_later(preview_ts(s.first_user), r)
            && no_later(preview_ts(s.last_user), r) && no_later(preview_ts(s.last_agent), r)),
{
    let a = preview_ts(s.first_user);
    let b = preview_ts(s.last_user);
    let c = preview_ts(s.last_agent);
    lemma_later_is_max(a, b);
    lemma_later_is_max(later(a, b), c);
    if let Some(r) = spec_last_activity(s) {
        if let Some(m) = later(a, b) {
            if lex_le(m, r) {
                if let Some(x) = a {
                    crate::show::plan::lemma_lex_trans(x, m, r);
                }
                if let Some(x) = b {
                    crate::show::plan::lemma_lex_trans(x, m, r);
                }
            }
        }
    }
}

/// The session's most recent activity timestamp (the max over first/last user and last
/// agent); `None` when no preview carries one.
pub fn last_activity(s: &SessionSummary) -> (r: Option<String>)
    ensures
        opt_view(r) == spec_last_activity(*s),
        r is None <==> (preview_ts(s.first_user) is None && preview_ts(s.last_user) is None
            && preview_ts(s.last_agent) is None),
        r matches Some(t) ==> (preview_ts(s.first_user) == Some(t@)
            || preview_ts(s.last_user) == Some(t@) || preview_ts(s.last_agent) == Some(t@)),
        r matches Some(t) ==> (no_later(preview_ts(s.first_user), t@)
            && no_later(preview_ts(s.last_user), t@) && no_later(preview_ts(s.last_agent), t@)),
{
    proof { lemma_last_activity_is_latest(*s); }
    let a = preview_ts_exec(&s.first_user);
    let b = preview_ts_exec(&s.last_user);
    let c = preview_ts_exec(&s.last_agent);
    match later_exec(later_exec(a, b), c) {
        Some(t) => Some(t.clone()),
        None => None,
    }
}

/// The oldest index in `[lo, hi)` whose record satisfies `p`.
pub open spec fn oldest_where(recs: Seq<Record>, lo: int, hi: int, p: spec_fn(Record) -> bool) -> Option<int>
    decreases hi - lo,
{
    if lo >= hi {
        None
    } else if p(recs[lo]) {
        Some(lo)
    } else {
        oldest_where(recs, lo + 1, hi, p)
    }
}

/// The newest index in `[lo, hi)` whose record satisfies `p`.
pub open spec fn newest_where(recs: Seq<Record>, lo: int, hi: int, p: spec_fn(Record) -> bool) -> Option<int>
    decreases hi - lo,
{
    if lo >= hi {
        None
    } else if p(recs[hi - 1]) {
        Some(hi - 1)
    } else {
        newest_where(recs, lo, hi - 1, p)
    }
}

pub open spec fn is_user_turn(r: Record) -> bool {
    spec_user_turn_text(r) is Some
}

pub open spec fn is_agent_reply(r: Record) -> bool {
    spec_agent_text(r) is Some
}

pub open spec fn has_version(r: Record) -> bool {
    r.version is Some
}

pub open spec fn has_branch(r: Record) -> bool {
    r.git_branch is Some
}

/// The head: the first person-typed user turn.
pub open spec fn head_index(recs: Seq<Record>) -> Option<int> {
    oldest_where(recs, 0, recs.len() as int, |r: Record| is_user_turn(r))
}

/// The tail window starts right after the head record (everything, when there is none),
/// so the head and tail reads never visit a record twice.
pub open spec fn tail_lo(recs: Seq<Record>) -> int {
    match head_index(recs) {
        Some(h) => h + 1,
        None => 0,
    }
}

/// The newest user turn of the tail window.
pub open spec fn tail_user_index(recs: Seq<Record>) -> Option<int> {
    newest_where(recs, tail_lo(recs), recs.len() as int, |r: Record| is_user_turn(r))
}

/// The newest agent reply of the tail window.
pub open spec fn tail_agent_index(recs: Seq<Record>) -> Option<int> {
    newest_where(recs, tail_lo(recs), recs.len() as int, |r: Record| is_agent_reply(r))
}

/// How far back the newest-first tail walk reads: down to the older of the two finds, or
/// the whole window when either is missing.
pub open spec fn tail_stop(recs: Seq<Record>) -> int {
    match (tail_user_index(recs), tail_agent_index(recs)) {
        (Some(u), Some(a)) => if u < a { u } else { a },
        _ => tail_lo(recs),
    }
}

pub open spec fn preview_of(recs: Seq<Record>, i: Option<int>, agent: bool) -> Option<(Option<Seq<char>>, Seq<char>)> {
    match i {
        Some(j) => Some((
            opt_view(recs[j].timestamp),
            truncated(if agent { spec_agent_text(recs[j])->0 } else { spec_user_turn_text(recs[j])->0 }, EXCERPT_MAX as nat),
        )),
        None => None,
    }
}

pub open spec fn view_preview(p: Option<MessagePreview>) -> Option<(Option<Seq<char>>, Seq<char>)> {
    match p {
        Some(m) => Some((opt_view(m.timestamp_utc), m.excerpt@)),
        None => None,
    }
}

pub open spec fn or_else(a: Option<Seq<char>>, b: Option<Seq<char>>) -> Option<Seq<char>> {
    if a is Some { a } else { b }
}

/// An identity field: the head record's value, backfilled from the tail's user turn.
pub open spec fn identity(recs: Seq<Record>, f: spec_fn(Record) -> Option<String>) -> Option<Seq<char>> {
    let head = match head_index(recs) { Some(h) => opt_view(f(recs[h])), None => None };
    let tail = match tail_user_index(recs) { Some(u) => opt_view(f(recs[u])), None => None };
    or_else(head, tail)
}

/// The newest value of a field over the records the tail walk read.
pub open spec fn newest_seen(recs: Seq<Record>, p: spec_fn(Record) -> bool, f: spec_fn(Record) -> Option<String>) -> Option<Seq<char>> {
    match newest_where(recs, tail_stop(recs), recs.len() as int, p) {
        Some(i) => opt_view(f(recs[i])),
        None => None,
    }
}

proof fn lemma_newest_step(recs: Seq<Record>, lo: int, hi: int, p: spec_fn(Record) -> bool)
    requires
        lo < hi,
    ensures
        newest_where(recs, lo, hi, p) == (if p(recs[hi - 1]) { Some(hi - 1) } else { newest_where(recs, lo, hi - 1, p) }),
{
}

proof fn lemma_newest_none_below(recs: Seq<Record>, lo: int, mid: int, hi: int, p: spec_fn(Record) -> bool)
    requires
        lo <= mid <= hi,
        newest_where(recs, mid, hi, p) is None,
    ensures
        newest_where(recs, lo, hi, p) == newest_where(recs, lo, mid, p),
    decreases hi - mid,
{
    if mid < hi {
        lemma_newest_none_below(recs, lo, mid, hi - 1, p);
    }
}

proof fn lemma_newest_found_above(recs: Seq<Record>, lo: int, mid: int, hi: int, p: spec_fn(Record) -> bool)
    requires
        lo <= mid <= hi,
        newest_where(recs, mid, hi, p) is Some,
    ensures
        newest_where(recs, lo, hi, p) == newest_where(recs, mid, hi, p),
    decreases hi - mid,
{
    if mid < hi && !p(recs[hi - 1]) {
        lemma_newest_found_above(recs, lo, mid, hi - 1, p);
    }
}

proof fn lemma_newest_bounds(recs: Seq<Record>, lo: int, hi: int, p: spec_fn(Record) -> bool)
    ensures
        newest_where(recs, lo, hi, p) matches Some(i) ==> lo <= i < hi && p(recs[i]),
    decreases hi - lo,
{
    if lo < hi && !p(recs[hi - 1]) {
        lemma_newest_bounds(recs, lo, hi - 1, p);
    }
}

proof fn lemma_oldest_bounds(recs: Seq<Record>, lo: int, hi: int, p: spec_fn(Record) -> bool)
    ensures
        oldest_where(recs, lo, hi, p) matches Some(i) ==> lo <= i < hi && p(recs[i]),
    decreases hi - lo,
{
    if lo < hi && !p(recs[lo]) {
        lemma_oldest_bounds(recs, lo + 1, hi, p);
    }
}

/// Build one `list` row from a session's candidate records (file order), the malformed
/// count of its reads, and the elicitation-sidecar facts. The head is the first
/// person-typed user turn (its cwd/version/branch/sessionId are the identity); the tail
/// walk reads newest-first from the end down to the older of the newest user turn and the
/// newest agent reply, and the newest version/branch it reads are what the session is on
/// now. A subagent row carries no sidecar facts.
pub fn summarize_session(
    path: &str,
    records: &Vec<Record>,
    skipped_lines: usize,
    pending_elicitations: Vec<String>,
    sidecar_present: bool,
) -> (s: SessionSummary)
    ensures
        s.path@ == path@,
        s.is_subagent == spec_is_subagent_path(path@),
        s.session_id@ == (if spec_session_id(path@).len() > 0 {
            spec_session_id(path@)
        } else {
            match identity(records@, |r: Record| r.session_id) { Some(d) => d, None => Seq::empty() }
        }),
        s.parent_session_id@ == (match spec_parent_session_id(path@) {
            Some(p) => p,
            None => s.session_id@,
        }),
        view_preview(s.first_user) == preview_of(records@, head_index(records@), false),
        view_preview(s.last_user) == preview_of(records@, tail_user_index(records@), false),
        view_preview(s.last_agent) == preview_of(records@, tail_agent_index(records@), true),
        opt_view(s.cwd) == identity(records@, |r: Record| r.cwd),
        opt_view(s.version) == or_else(
            newest_seen(records@, |r: Record| has_version(r), |r: Record| r.version),
            identity(records@, |r: Record| r.version),
        ),
        opt_view(s.git_branch) == or_else(
            newest_seen(records@, |r: Record| has_branch(r), |r: Record| r.git_branch),
            identity(records@, |r: Record| r.git_branch),
        ),
        s.skipped_lines == skipped_lines,
        s.is_subagent ==> s.pending_elicitations@.len() == 0 && !s.sidecar_present,
        !s.is_subagent ==> s.pending_elicitations@ == pending_elicitations@ && s.sidecar_present == sidecar_present,
{
    let n = records.len();
    let ghost recs = records@;
    let ghost pu = |r: Record| is_user_turn(r);
    let ghost pa = |r: Record| is_agent_reply(r);
    let ghost pv = |r: Record| has_version(r);
    let ghost pb = |r: Record| has_branch(r);

    // ── head: the first person-typed user turn ──
    let mut first_user: Option<MessagePreview> = None;
    let mut cwd: Option<String> = None;
    let mut version: Option<String> = None;
    let mut git_branch: Option<String> = None;
    let mut data_session_id: Option<String> = None;
    let mut head: Option<usize> = None;
    let mut i: usize = 0;
    while i < n && head.is_none()
        invariant
            n == records.len(),
            recs == records@,
            i <= n,
            head is None ==> oldest_where(recs, 0, n as int, pu) == oldest_where(recs, i as int, n as int, pu),
            head is None ==> (first_user is None && cwd is None && version is None && git_branch is None
                && data_session_id is None),
            head matches Some(h) ==> (oldest_where(recs, 0, n as int, pu) == Some(h as int) && h < n
                && view_preview(first_user) == preview_of(recs, Some(h as int), false)
                && cwd == recs[h as int].cwd && version == recs[h as int].version
                && git_branch == recs[h as int].git_branch && data_session_id == recs[h as int].session_id),
            pu == (|r: Record| is_user_turn(r)),
        decreases (n - i) * 2 + (if head is None { 1int } else { 0int }),
    {
        assert(pu(recs[i as int]) == is_user_turn(recs[i as int]));
        if let Some(text) = preview_text(&records[i]) {
            cwd = records[i].cwd.clone();
            version = records[i].version.clone();
            git_branch = records[i].git_branch.clone();
            data_session_id = records[i].session_id.clone();
            first_user = Some(MessagePreview::from(records[i].timestamp.clone(), text.as_str()));
            head = Some(i);
        } else {
            i = i + 1;
        }
    }
    let lo: usize = match head { Some(h) => h + 1, None => 0 };
    proof {
        lemma_oldest_bounds(recs, 0, n as int, pu);
        if head is None {
            assert(oldest_where(recs, n as int, n as int, pu) is None);
        }
    }
    assert(head_index(recs) == match head { Some(h) => Some(h as int), None => None::<int> });
    assert(tail_lo(recs) == lo as int);

    // ── tail: newest-first, until both the newest user turn and agent reply are found ──
    let mut last_user: Option<MessagePreview> = None;
    let mut last_agent: Option<MessagePreview> = None;
    let mut version_last: Option<String> = None;
    let mut branch_last: Option<String> = None;
    let ghost mut iu: Option<int> = None;
    let ghost mut ia: Option<int> = None;
    let mut j: usize = n;
    while j > lo && (last_user.is_none() || last_agent.is_none())
        invariant
            n == records.len(),
            recs == records@,
            lo <= j <= n,
            lo as int == tail_lo(recs),
            // what the walk found so far over [j, n)
            iu == newest_where(recs, j as int, n as int, pu),
            ia == newest_where(recs, j as int, n as int, pa),
            last_user is Some == iu is Some,
            last_agent is Some == ia is Some,
            view_preview(last_user) == preview_of(recs, iu, false),
            view_preview(last_agent) == preview_of(recs, ia, true),
            opt_view(version_last) == match newest_where(recs, j as int, n as int, pv) { Some(k) => opt_view(recs[k].version), None => None },
            opt_view(branch_last) == match newest_where(recs, j as int, n as int, pb) { Some(k) => opt_view(recs[k].git_branch), None => None },
            (iu is Some && ia is Some) ==> j as int == (if iu->0 < ia->0 { iu->0 } else { ia->0 }),
            opt_view(cwd) == or_else(
                match head { Some(h) => opt_view(recs[h as int].cwd), None => None },
                match iu { Some(u) => opt_view(recs[u].cwd), None => None }),
            opt_view(version) == or_else(
                match head { Some(h) => opt_view(recs[h as int].version), None => None },
                match iu { Some(u) => opt_view(recs[u].version), None => None }),
            opt_view(git_branch) == or_else(
                match head { Some(h) => opt_view(recs[h as int].git_branch), None => None },
                match iu { Some(u) => opt_view(recs[u].git_branch), None => None }),
            opt_view(data_session_id) == or_else(
                match head { Some(h) => opt_view(recs[h as int].session_id), None => None },
                match iu { Some(u) => opt_view(recs[u].session_id), None => None }),
            head matches Some(h) ==> h < n && spec_user_turn_text(recs[h as int]) is Some,
            pu == (|r: Record| is_user_turn(r)),
            pa == (|r: Record| is_agent_reply(r)),
            pv == (|r: Record| has_version(r)),
            pb == (|r: Record| has_branch(r)),
        decreases j,
    {
        let k = j - 1;
        let r = &records[k];
        proof {
            lemma_newest_step(recs, k as int, n as int, pu);
            lemma_newest_step(recs, k as int, n as int, pa);
            lemma_newest_step(recs, k as int, n as int, pv);
            lemma_newest_step(recs, k as int, n as int, pb);
        }
        // newest_where over [k, n) given [j, n): the found index stays, else k if it matches
        proof {
            if iu is Some { lemma_newest_found_above(recs, k as int, j as int, n as int, pu); }
            else { lemma_newest_none_below(recs, k as int, j as int, n as int, pu); lemma_newest_step(recs, k as int, j as int, pu); }
            if ia is Some { lemma_newest_found_above(recs, k as int, j as int, n as int, pa); }
            else { lemma_newest_none_below(recs, k as int, j as int, n as int, pa); lemma_newest_step(recs, k as int, j as int, pa); }
            if newest_where(recs, j as int, n as int, pv) is Some { lemma_newest_found_above(recs, k as int, j as int, n as int, pv); }
            else { lemma_newest_none_below(recs, k as int, j as int, n as int, pv); lemma_newest_step(recs, k as int, j as int, pv); }
            if newest_where(recs, j as int, n as int, pb) is Some { lemma_newest_found_above(recs, k as int, j as int, n as int, pb); }
            else { lemma_newest_none_below(recs, k as int, j as int, n as int, pb); lemma_newest_step(recs, k as int, j as int, pb); }
            assert(newest_where(recs, k as int, k as int, pu) is None);
            assert(newest_where(recs, k as int, k as int, pa) is None);
            assert(newest_where(recs, k as int, k as int, pv) is None);
            assert(newest_where(recs, k as int, k as int, pb) is None);
            lemma_newest_bounds(recs, j as int, n as int, pv);
            lemma_newest_bounds(recs, j as int, n as int, pb);
            lemma_newest_bounds(recs, j as int, n as int, pu);
            lemma_newest_bounds(recs, j as int, n as int, pa);
            lemma_newest_bounds(recs, k as int, n as int, pv);
            lemma_newest_bounds(recs, k as int, n as int, pb);
        }
        assert(pu(recs[k as int]) == is_user_turn(recs[k as int]));
        assert(pa(recs[k as int]) == is_agent_reply(recs[k as int]));
        assert(pv(recs[k as int]) == has_version(recs[k as int]));
        assert(pb(recs[k as int]) == has_branch(recs[k as int]));
        if version_last.is_none() {
            version_last = r.version.clone();
        }
        if branch_last.is_none() {
            branch_last = r.git_branch.clone();
        }
        if last_agent.is_none() {
            if let Some(text) = agent_text(r) {
                last_agent = Some(MessagePreview::from(r.timestamp.clone(), text.as_str()));
                proof { ia = Some(k as int); }
            }
        }
        if last_user.is_none() {
            if let Some(text) = preview_text(r) {
                last_user = Some(MessagePreview::from(r.timestamp.clone(), text.as_str()));
                capture_identity_if_empty(r, &mut cwd, &mut version, &mut git_branch, &mut data_session_id);
                proof { iu = Some(k as int); }
            }
        }
        j = k;
    }
    proof {
        lemma_newest_bounds(recs, lo as int, n as int, pu);
        lemma_newest_bounds(recs, lo as int, n as int, pa);
        if iu is Some { lemma_newest_found_above(recs, lo as int, j as int, n as int, pu); }
        else { lemma_newest_none_below(recs, lo as int, j as int, n as int, pu); }
        if ia is Some { lemma_newest_found_above(recs, lo as int, j as int, n as int, pa); }
        else { lemma_newest_none_below(recs, lo as int, j as int, n as int, pa); }
        assert(newest_where(recs, lo as int, lo as int, pu) is None);
        assert(newest_where(recs, lo as int, lo as int, pa) is None);
    }
    assert(tail_user_index(recs) == iu);
    assert(tail_agent_index(recs) == ia);
    assert(tail_stop(recs) == j as int);

    let path_id = session_id_from_path(path);
    let session_id = if path_id.as_str().is_empty() {
        match data_session_id {
            Some(d) => d,
            None => String::new(),
        }
    } else {
        path_id
    };
    let is_subagent = is_subagent_path(path);
    let parent_session_id = match parent_session_id_from_path(path) {
        Some(p) => p,
        None => session_id.clone(),
    };
    let final_version = match version_last {
        Some(v) => Some(v),
        None => version,
    };
    let final_branch = match branch_last {
        Some(b) => Some(b),
        None => git_branch,
    };
    let (pending, present) = if is_subagent {
        (Vec::new(), false)
    } else {
        (pending_elicitations, sidecar_present)
    };
    SessionSummary {
        session_id,
        is_subagent,
        parent_session_id,
        path: crate::chars::from_chars(crate::chars::to_chars(path).as_slice()),
        cwd,
        version: final_version,
        git_branch: final_branch,
        first_user,
        last_user,
        last_agent,
        skipped_lines,
        pending_elicitations: pending,
        sidecar_present: present,
    }
}

} // verus!
