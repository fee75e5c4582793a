//! Subagent transcripts: the path-derived identity of a transcript file (canonical id,
//! owning session, subagent-ness), the kind/status labels, and lifecycle helpers.
//!
//! Paths are `/`-separated strings read the way `std::path::Path::components` reads a
//! Unix path: a leading `/` is the root component, empty pieces and interior `.` pieces
//! are dropped, and a leading `.` of a relative path is kept.

use vstd::prelude::*;
use crate::chars::{from_chars, to_chars};
use crate::range::slice_from;
use crate::durations::{fmt_secs, iso_millis, millis_to_secs, parse_iso_millis, spec_fmt_secs, trunc_div};

verus! {

/// The `/`-separated pieces of `s`, empty pieces included, with `cur` the piece being read.
pub open spec fn split_acc(s: Seq<char>, cur: Seq<char>) -> Seq<Seq<char>>
    decreases s.len(),
{
    if s.len() == 0 {
        seq![cur]
    } else if s[0] == '/' {
        seq![cur] + split_acc(s.drop_first(), Seq::empty())
    } else {
        split_acc(s.drop_first(), cur.push(s[0]))
    }
}

/// The pieces that survive as components: non-empty, and not `.` (a `.` survives only as
/// the very first piece of a relative path).
pub open spec fn keep_pieces(ps: Seq<Seq<char>>, first_may_be_dot: bool) -> Seq<Seq<char>>
    decreases ps.len(),
{
    if ps.len() == 0 {
        Seq::empty()
    } else {
        let p = ps[0];
        let keep = p.len() > 0 && (p != seq!['.'] || first_may_be_dot);
        (if keep { seq![p] } else { Seq::empty() }) + keep_pieces(ps.drop_first(), false)
    }
}

/// The components of a path: `/` for the root of an absolute path, then the kept pieces.
pub open spec fn components(p: Seq<char>) -> Seq<Seq<char>> {
    let abs = p.len() > 0 && p[0] == '/';
    (if abs { seq![seq!['/']] } else { Seq::empty() }) + keep_pieces(split_acc(p, Seq::empty()), !abs)
}

proof fn lemma_split_step(s: Seq<char>, i: int, cur: Seq<char>)
    requires
        0 <= i < s.len(),
    ensures
        split_acc(s.skip(i), cur) == (if s[i] == '/' {
            seq![cur] + split_acc(s.skip(i + 1), Seq::empty())
        } else {
            split_acc(s.skip(i + 1), cur.push(s[i]))
        }),
{
    assert(s.skip(i).drop_first() =~= s.skip(i + 1));
}

proof fn lemma_keep_append(ps: Seq<Seq<char>>, p: Seq<char>, first: bool)
    ensures
        keep_pieces(ps.push(p), first) == keep_pieces(ps, first) + (if p.len() > 0 && (p != seq![
            '.',
        ] || (first && ps.len() == 0)) {
            seq![p]
        } else {
            Seq::empty()
        }),
    decreases ps.len(),
{
    if ps.len() == 0 {
        assert(ps.push(p) =~= seq![p]);
        assert(seq![p].drop_first() =~= Seq::<Seq<char>>::empty());
        assert(keep_pieces(Seq::<Seq<char>>::empty(), false) =~= Seq::<Seq<char>>::empty());
        assert(keep_pieces(ps, first) =~= Seq::<Seq<char>>::empty());
    } else {
        lemma_keep_append(ps.drop_first(), p, false);
        assert(ps.push(p).drop_first() =~= ps.drop_first().push(p));
        assert(ps.push(p)[0] == ps[0]);
    }
}

proof fn lemma_is_dot(c: Seq<char>)
    ensures
        c == seq!['.'] <==> (c.len() == 1 && c[0] == '.'),
{
    if c.len() == 1 && c[0] == '.' {
        assert(c =~= seq!['.']);
    }
}

/// The path's components, as char vectors.
pub fn path_components(path: &str) -> (out: Vec<Vec<char>>)
    ensures
        out@.map_values(|v: Vec<char>| v@) == components(path@),
{
    let s = to_chars(path);
    let abs = s.len() > 0 && s[0] == '/';
    let mut out: Vec<Vec<char>> = Vec::new();
    if abs {
        let r = vec!['/'];
        assert(r@ =~= seq!['/']);
        out.push(r);
    }
    let ghost root: Seq<Seq<char>> = if abs { seq![seq!['/']] } else { Seq::empty() };
    assert(out@.map_values(|v: Vec<char>| v@) =~= root);
    // `done`: the pieces already closed by a `/`; `cur`: the piece being read.
    let ghost mut done: Seq<Seq<char>> = Seq::empty();
    let mut first = true;
    let mut cur: Vec<char> = Vec::new();
    let mut i: usize = 0;
    assert(s@.skip(0) =~= s@);
    while i < s.len()
        invariant
            i <= s.len(),
            s@ == path@,
            abs == (s@.len() > 0 && s@[0] == '/'),
            root == (if abs { seq![seq!['/']] } else { Seq::<Seq<char>>::empty() }),
            first == (done.len() == 0),
            split_acc(s@, Seq::empty()) == done + split_acc(s@.skip(i as int), cur@),
            out@.map_values(|v: Vec<char>| v@) == root + keep_pieces(done, !abs),
        decreases s.len() - i,
    {
        proof { lemma_split_step(s@, i as int, cur@); }
        if s[i] == '/' {
            proof { lemma_keep_append(done, cur@, !abs); }
            let keep = cur.len() > 0 && (!(cur.len() == 1 && cur[0] == '.') || (!abs && first));
            proof { lemma_is_dot(cur@); }
            let ghost before = out@;
            if keep {
                out.push(cur.clone());
                assert(out@.map_values(|v: Vec<char>| v@) =~= before.map_values(|v: Vec<char>| v@).push(cur@));
            }
            proof {
                assert(done + (seq![cur@] + split_acc(s@.skip(i + 1), Seq::empty())) =~= done.push(cur@)
                    + split_acc(s@.skip(i + 1), Seq::empty()));
                done = done.push(cur@);
            }
            assert(out@.map_values(|v: Vec<char>| v@) =~= root + keep_pieces(done, !abs));
            cur = Vec::new();
            first = false;
        } else {
            cur.push(s[i]);
        }
        i = i + 1;
    }
    proof {
        assert(s@.skip(s.len() as int) =~= Seq::<char>::empty());
        lemma_keep_append(done, cur@, !abs);
    }
    proof { lemma_is_dot(cur@); }
    let keep = cur.len() > 0 && (!(cur.len() == 1 && cur[0] == '.') || (!abs && first));
    let ghost before = out@;
    let ghost last = cur@;
    if keep {
        out.push(cur);
        assert(out@.map_values(|v: Vec<char>| v@) =~= before.map_values(|v: Vec<char>| v@).push(last));
    }
    assert(split_acc(s@, Seq::empty()) =~= done.push(last));
    assert(out@.map_values(|v: Vec<char>| v@) =~= root + keep_pieces(split_acc(s@, Seq::empty()), !abs));
    out
}

/// The last component when it is a plain name (not the root, `.` or `..`).
pub open spec fn spec_file_name(p: Seq<char>) -> Option<Seq<char>> {
    let cs = components(p);
    if cs.len() == 0 {
        None
    } else {
        let last = cs.last();
        if last == seq!['/'] || last == seq!['.'] || last == seq!['.', '.'] {
            None
        } else {
            Some(last)
        }
    }
}

/// The index of the last `.` in `s`.
pub open spec fn last_dot(s: Seq<char>) -> Option<int>
    decreases s.len(),
{
    if s.len() == 0 {
        None
    } else if s.last() == '.' {
        Some(s.len() - 1)
    } else {
        last_dot(s.drop_last())
    }
}

/// A file name without its extension: everything before the last `.`, unless that `.`
/// leads the name (a dot-file) or there is none.
pub open spec fn spec_stem(name: Seq<char>) -> Seq<char> {
    match last_dot(name) {
        Some(i) if i > 0 => name.take(i),
        _ => name,
    }
}

/// The canonical agent id of a file stem: the `agent-` prefix stripped when present.
pub open spec fn spec_bare_agent_id(stem: Seq<char>) -> Seq<char> {
    if stem.len() >= 6 && stem.take(6) == "agent-"@ {
        stem.skip(6)
    } else {
        stem
    }
}

/// A transcript's canonical id: its file stem, `agent-` stripped; empty when the path has
/// no file name.
pub open spec fn spec_session_id(p: Seq<char>) -> Seq<char> {
    match spec_file_name(p) {
        Some(n) => spec_bare_agent_id(spec_stem(n)),
        None => Seq::empty(),
    }
}

/// The first component spelled `subagents`.
pub open spec fn first_subagents_from(cs: Seq<Seq<char>>, i: int) -> Option<int>
    decreases cs.len() - i,
{
    if i < 0 || i >= cs.len() {
        None
    } else if cs[i] == "subagents"@ {
        Some(i)
    } else {
        first_subagents_from(cs, i + 1)
    }
}

/// The component right before the first `subagents` component.
pub open spec fn spec_parent_session_id(p: Seq<char>) -> Option<Seq<char>> {
    let cs = components(p);
    match first_subagents_from(cs, 0) {
        Some(i) if i > 0 => Some(cs[i - 1]),
        _ => None,
    }
}

/// Some component is spelled `subagents`.
pub open spec fn spec_is_subagent_path(p: Seq<char>) -> bool {
    first_subagents_from(components(p), 0) is Some
}

fn last_dot_index(s: &[char]) -> (r: Option<usize>)
    ensures
        match r {
            Some(i) => last_dot(s@) == Some(i as int) && i < s@.len(),
            None => last_dot(s@) is None,
        },
{
    let mut i = s.len();
    assert(s@.take(s@.len() as int) =~= s@);
    while i > 0
        invariant
            i <= s.len(),
            last_dot(s@) == last_dot(s@.take(i as int)),
        decreases i,
    {
        assert(s@.take(i as int).drop_last() =~= s@.take(i - 1));
        if s[i - 1] == '.' {
            return Some(i - 1);
        }
        i = i - 1;
    }
    None
}

/// Strip the on-disk `agent-` filename prefix to the bare canonical agent id.
pub fn bare_agent_id(stem: &str) -> (r: String)
    ensures
        r@ == spec_bare_agent_id(stem@),
{
    let v = to_chars(stem);
    if crate::chars::starts_with_str(v.as_slice(), "agent-") {
        proof { reveal_strlit("agent-"); }
        let rest = slice_from(v.as_slice(), 6);
        from_chars(rest.as_slice())
    } else {
        proof { reveal_strlit("agent-"); }
        from_chars(v.as_slice())
    }
}

/// The canonical session id of a transcript path: the jsonl basename without extension,
/// with a subagent's `agent-` prefix stripped; empty when the path names no file.
pub fn session_id_from_path(path: &str) -> (r: String)
    ensures
        r@ == spec_session_id(path@),
{
    let cs = path_components(path);
    if cs.len() == 0 {
        return String::new();
    }
    let last = &cs[cs.len() - 1];
    assert(cs@.map_values(|v: Vec<char>| v@)[cs.len() - 1] == last@);
    let dotdot = vec!['.', '.'];
    assert(dotdot@ =~= seq!['.', '.']);
    if (last.len() == 1 && (last[0] == '/' || last[0] == '.')) || crate::chars::chars_eq(last.as_slice(), dotdot.as_slice()) {
        assert(last@ == seq!['/'] || last@ == seq!['.'] || last@ == seq!['.', '.']) by {
            if last.len() == 1 && last[0] == '/' { assert(last@ =~= seq!['/']); }
            if last.len() == 1 && last[0] == '.' { assert(last@ =~= seq!['.']); }
        }
        return String::new();
    }
    assert(!(last@ == seq!['/'] || last@ == seq!['.'])) by {
        if last@ == seq!['/'] { assert(last@.len() == 1 && last@[0] == '/'); }
        if last@ == seq!['.'] { assert(last@.len() == 1 && last@[0] == '.'); }
    }
    let stem = match last_dot_index(last.as_slice()) {
        Some(i) if i > 0 => crate::range::slice_range(last.as_slice(), 0, i),
        _ => last.clone(),
    };
    proof {
        match last_dot(last@) {
            Some(i) if i > 0 => { assert(last@.subrange(0, i) =~= last@.take(i)); },
            _ => {},
        }
    }
    let s = from_chars(stem.as_slice());
    bare_agent_id(s.as_str())
}

fn find_subagents(cs: &Vec<Vec<char>>) -> (r: Option<usize>)
    ensures
        match r {
            Some(i) => first_subagents_from(cs@.map_values(|v: Vec<char>| v@), 0) == Some(i as int)
                && i < cs@.len(),
            None => first_subagents_from(cs@.map_values(|v: Vec<char>| v@), 0) is None,
        },
{
    let ghost views = cs@.map_values(|v: Vec<char>| v@);
    let mut i: usize = 0;
    while i < cs.len()
        invariant
            i <= cs.len(),
            views == cs@.map_values(|v: Vec<char>| v@),
            first_subagents_from(views, 0) == first_subagents_from(views, i as int),
        decreases cs.len() - i,
    {
        assert(views[i as int] == cs@[i as int]@);
        if crate::chars::chars_eq_str(cs[i].as_slice(), "subagents") {
            return Some(i);
        }
        i = i + 1;
    }
    None
}

/// The owning top-level session id of a subagent transcript path: the component just
/// before `subagents`. `None` for a top-level `<uuid>.jsonl` (it is its own session).
pub fn parent_session_id_from_path(path: &str) -> (r: Option<String>)
    ensures
        opt_view_s(r) == spec_parent_session_id(path@),
{
    let cs = path_components(path);
    match find_subagents(&cs) {
        Some(i) if i > 0 => {
            assert(cs@.map_values(|v: Vec<char>| v@)[i - 1] == cs@[i - 1]@);
            Some(from_chars(cs[i - 1].as_slice()))
        },
        _ => None,
    }
}

/// True when the path lies under a `subagents` directory.
pub fn is_subagent_path(path: &str) -> (b: bool)
    ensures
        b == spec_is_subagent_path(path@),
{
    let cs = path_components(path);
    find_subagents(&cs).is_some()
}

pub open spec fn opt_view_s(o: Option<String>) -> Option<Seq<char>> {
    match o {
        Some(s) => Some(s@),
        None => None,
    }
}

/// Subagent kind, keyed off the on-disk path location.
#[derive(Debug, Clone, Copy, PartialEq, Eq, Structural)]
pub enum SubagentKind {
    /// `subagents/agent-<hex>.jsonl`: a built-in Task/Agent-tool subagent.
    BuiltinTask,
    /// `subagents/workflows/wf_<id>/agent-<hex>.jsonl`: a workflow agent.
    Workflow,
    /// A persistent, directly addressable team member (meta `taskKind` says so).
    Teammate,
}

impl SubagentKind {
    /// Stable lowercase label used in output.
    pub fn label(self) -> (l: &'static str)
        ensures
            l@ == (match self {
                SubagentKind::BuiltinTask => "builtin-task"@,
                SubagentKind::Workflow => "workflow"@,
                SubagentKind::Teammate => "teammate"@,
            }),
    {
        match self {
            SubagentKind::BuiltinTask => "builtin-task",
            SubagentKind::Workflow => "workflow",
            SubagentKind::Teammate => "teammate",
        }
    }
}

/// Determinable subagent run status.
#[derive(Debug, Clone, Copy, PartialEq, Eq, Structural)]
pub enum SubagentStatus {
    /// A journal `result` event, or a transcript ending on an assistant text message.
    Completed,
    /// Records exist, but no completion signal.
    Running,
    /// No records / no start timestamp: cannot be determined.
    Unknown,
}

impl SubagentStatus {
    pub fn label(self) -> (l: &'static str)
        ensures
            l@ == (match self {
                SubagentStatus::Completed => "completed"@,
                SubagentStatus::Running => "running"@,
                SubagentStatus::Unknown => "unknown"@,
            }),
    {
        match self {
            SubagentStatus::Completed => "completed",
            SubagentStatus::Running => "running",
            SubagentStatus::Unknown => "unknown",
        }
    }
}

/// Why a lane is frozen at an unreturned tool_use.
#[derive(Debug, Clone, Copy, PartialEq, Eq, Structural)]
pub enum PendingClassification {
    /// A command the harness hoists for human approval even under bypass-permissions.
    EscalationBlocked,
    /// Any other pending tool_use: still executing, or wedged.
    AwaitingExecution,
}

impl PendingClassification {
    pub fn label(self) -> (l: &'static str)
        ensures
            l@ == (match self {
                PendingClassification::EscalationBlocked => "escalation-blocked"@,
                PendingClassification::AwaitingExecution => "awaiting-execution"@,
            }),
    {
        match self {
            PendingClassification::EscalationBlocked => "escalation-blocked",
            PendingClassification::AwaitingExecution => "awaiting-execution",
        }
    }
}

/// The status rule, never over-claiming: a journal result or a terminal assistant message
/// means completed; records with a start but no completion signal mean running; anything
/// else is unknown.
pub open spec fn spec_resolve_status(saw_any: bool, journal_done: bool, terminal_agent_msg: bool, has_start: bool) -> SubagentStatus {
    if journal_done || terminal_agent_msg {
        SubagentStatus::Completed
    } else if saw_any && has_start {
        SubagentStatus::Running
    } else {
        SubagentStatus::Unknown
    }
}

pub fn resolve_status(saw_any: bool, journal_done: bool, terminal_agent_msg: bool, has_start: bool) -> (s: SubagentStatus)
    ensures
        s == spec_resolve_status(saw_any, journal_done, terminal_agent_msg, has_start),
{
    if journal_done || terminal_agent_msg {
        SubagentStatus::Completed
    } else if saw_any && has_start {
        SubagentStatus::Running
    } else {
        SubagentStatus::Unknown
    }
}

/// The whole seconds from `started` to `completed` (each instant truncated to its whole
/// second), clamped at zero.
pub open spec fn spec_elapsed_secs(started: int, completed: int) -> nat {
    let d = trunc_div(completed, 1000) - trunc_div(started, 1000);
    if d > 0 { d as nat } else { 0 }
}

/// Human-readable duration between two ISO instants (`3m20s`, `2h05m`, `3s`; `0s` when the
/// completion precedes the start). `None` when either bound is missing or does not parse.
pub fn duration_label(started: Option<&str>, completed: Option<&str>) -> (r: Option<String>)
    ensures
        match (started, completed) {
            (Some(a), Some(b)) => match (iso_millis(a@), iso_millis(b@)) {
                (Some(x), Some(y)) => r is Some && r->0@ == spec_fmt_secs(spec_elapsed_secs(x, y)),
                _ => r is None,
            },
            _ => r is None,
        },
{
    let a = started?;
    let b = completed?;
    let x = parse_iso_millis(a)?;
    let y = parse_iso_millis(b)?;
    let sx = millis_to_secs(x);
    let sy = millis_to_secs(y);
    let d: i128 = sy as i128 - sx as i128;
    let secs: u64 = if d > 0 { d as u64 } else { 0 };
    Some(fmt_secs(secs))
}

/// Lexicographic `a <= b` over chars (how ISO-8601 UTC instants compare as text).
pub open spec fn lex_le(a: Seq<char>, b: Seq<char>) -> bool
    decreases a.len(),
{
    if a.len() == 0 {
        true
    } else if b.len() == 0 {
        false
    } else if a[0] != b[0] {
        a[0] < b[0]
    } else {
        lex_le(a.drop_first(), b.drop_first())
    }
}

/// Text order `a <= b`.
pub fn str_le(a: &str, b: &str) -> (r: bool)
    ensures
        r == lex_le(a@, b@),
{
    let x = to_chars(a);
    let y = to_chars(b);
    let mut i: usize = 0;
    assert(x@.skip(0) =~= x@);
    assert(y@.skip(0) =~= y@);
    while i < x.len() && i < y.len() && x[i] == y[i]
        invariant
            i <= x.len(),
            i <= y.len(),
            lex_le(a@, b@) == lex_le(x@.skip(i as int), y@.skip(i as int)),
            x@ == a@,
            y@ == b@,
        decreases x.len() - i,
    {
        assert(x@.skip(i as int).drop_first() =~= x@.skip(i + 1));
        assert(y@.skip(i as int).drop_first() =~= y@.skip(i + 1));
        i = i + 1;
    }
    if i == x.len() {
        true
    } else if i == y.len() {
        false
    } else {
        x[i] < y[i]
    }
}

} // verus!
