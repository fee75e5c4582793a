//! Subagent topology: each discovered subagent, the facts its transcript yields (start,
//! last activity, status, a frozen lane's pending tool call), the spawn index that links
//! it back to the tool call that launched it, its returned message, and its nesting
//! depth.

use vstd::prelude::*;
use crate::chars::{str_eq, to_chars};
use crate::search::excerpt::{contains_chars, has_sub};
use crate::subagent::PendingClassification;
use crate::model::{Block, Record, agent_text, any_tool_result, has_tool_result, opt_view, spec_agent_text, spec_blocks,
    spec_user_turn_text, user_turn_text};
use crate::search::hits::record_blocks;
use crate::stats::tally::{get, has_key, key_sorted, lemma_value_at, put, value_at};
use crate::subagent::{lex_le, str_le, SubagentKind, SubagentStatus, resolve_status, session_id_from_path, spec_resolve_status,
    spec_session_id};

verus! {

/// What the logic reads of a subagent's `meta.json` (every field optional).
#[derive(Debug, Clone)]
pub struct MetaFields {
    pub agent_type: Option<String>,
    pub description: Option<String>,
    /// The spawning tool call's id (the topology join key).
    pub tool_use_id: Option<String>,
    pub name: Option<String>,
    /// `in_process_teammate` marks a teammate.
    pub task_kind: Option<String>,
    pub team_name: Option<String>,
}

/// One discovered subagent transcript.
#[derive(Debug, Clone)]
pub struct Subagent {
    /// The bare agent id (the file stem without `agent-`).
    pub agent_id: String,
    pub kind: SubagentKind,
    pub path: String,
    pub parent_session_id: String,
    pub workflow_id: Option<String>,
    pub spawn_tool_use_id: Option<String>,
    pub name: Option<String>,
    pub team_name: Option<String>,
    pub agent_type: Option<String>,
    pub description: Option<String>,
}

/// A built-in-location agent whose meta says `taskKind: in_process_teammate` is a
/// teammate; every other kind stands.
pub open spec fn spec_kind(kind: SubagentKind, task_kind: Option<Seq<char>>) -> SubagentKind {
    if kind == SubagentKind::BuiltinTask && task_kind == Some("in_process_teammate"@) {
        SubagentKind::Teammate
    } else {
        kind
    }
}

/// Build a [`Subagent`] from its path, location kind, owning session, workflow id and
/// meta fields.
pub fn make_subagent(path: &str, kind: SubagentKind, parent_session_id: &str, workflow_id: Option<String>,
    meta: MetaFields) -> (s: Subagent)
    ensures
        s.agent_id@ == spec_session_id(path@),
        s.kind == spec_kind(kind, opt_view(meta.task_kind)),
        s.path@ == path@,
        s.parent_session_id@ == parent_session_id@,
        s.workflow_id == workflow_id,
        s.spawn_tool_use_id == meta.tool_use_id,
        s.name == meta.name,
        s.team_name == meta.team_name,
        s.agent_type == meta.agent_type,
        s.description == meta.description,
{
    let teammate = match &meta.task_kind {
        Some(k) => str_eq(k.as_str(), "in_process_teammate"),
        None => false,
    };
    let kind = if kind == SubagentKind::BuiltinTask && teammate { SubagentKind::Teammate } else { kind };
    Subagent {
        agent_id: session_id_from_path(path),
        kind,
        path: path.to_string(),
        parent_session_id: parent_session_id.to_string(),
        workflow_id,
        spawn_tool_use_id: meta.tool_use_id,
        name: meta.name,
        team_name: meta.team_name,
        agent_type: meta.agent_type,
        description: meta.description,
    }
}

/// A frozen lane's unreturned tool call.
#[derive(Debug, Clone)]
pub struct PendingToolUse {
    pub tool_use_id: String,
    pub tool_name: String,
    /// The Bash `command`, for a Bash call.
    pub command: Option<String>,
    /// When the lane froze: the record's timestamp.
    pub since_utc: Option<String>,
    /// The command is one the harness hoists for human approval.
    pub dangerous: bool,
}

pub type PendingView = (Seq<char>, Seq<char>, Option<Seq<char>>, Option<Seq<char>>, bool);

pub open spec fn pending_view(p: PendingToolUse) -> PendingView {
    (p.tool_use_id@, p.tool_name@, opt_view(p.command), opt_view(p.since_utc), p.dangerous)
}

/// A tool call with an id and a name.
pub open spec fn is_candidate(b: Block) -> bool {
    b matches Block::ToolUse { id: Some(_), name: Some(_), .. }
}

/// A candidate Bash call whose command the harness hoists.
pub open spec fn is_dangerous(b: Block) -> bool {
    match b {
        Block::ToolUse { id: Some(_), name: Some(n), input: Some(i) } =>
            n@ == "Bash"@ && i.command is Some && i.dangerous_command,
        _ => false,
    }
}

/// The first block satisfying `p`.
pub open spec fn first_block(bs: Seq<Block>, p: spec_fn(Block) -> bool, from: int) -> Option<int>
    decreases bs.len() - from,
{
    if from >= bs.len() || from < 0 {
        None
    } else if p(bs[from]) {
        Some(from)
    } else {
        first_block(bs, p, from + 1)
    }
}

/// The pending call a block makes, stamped with the record's time.
pub open spec fn pending_from(b: Block, ts: Option<Seq<char>>) -> PendingView {
    match b {
        Block::ToolUse { id: Some(id), name: Some(n), input } => {
            let command = if n@ == "Bash"@ {
                match input { Some(i) => opt_view(i.command), None => None }
            } else {
                None
            };
            (id@, n@, command, ts, is_dangerous(b))
        },
        _ => (Seq::empty(), Seq::empty(), None, ts, false),
    }
}

/// The unreturned call an assistant record leaves when it is the newest: its dangerous
/// Bash call if it has one, else its first call with an id and a name.
pub open spec fn spec_pending(rec: Record) -> Option<PendingView> {
    if opt_view(rec.record_type) != Some("assistant"@) {
        None
    } else {
        match spec_blocks(rec) {
            None => None,
            Some(bs) => match first_block(bs, |b: Block| is_dangerous(b), 0) {
                Some(k) => Some(pending_from(bs[k], opt_view(rec.timestamp))),
                None => match first_block(bs, |b: Block| is_candidate(b), 0) {
                    Some(k) => Some(pending_from(bs[k], opt_view(rec.timestamp))),
                    None => None,
                },
            },
        }
    }
}

proof fn lemma_first_block(bs: Seq<Block>, p: spec_fn(Block) -> bool, from: int)
    ensures
        first_block(bs, p, from) matches Some(k) ==> from <= k < bs.len() && p(bs[k]),
    decreases bs.len() - from,
{
    if 0 <= from < bs.len() && !p(bs[from]) {
        lemma_first_block(bs, p, from + 1);
    }
}

fn first_block_exec(bs: &Vec<Block>, dangerous: bool) -> (r: Option<usize>)
    ensures
        (match r { Some(k) => Some(k as int), None => None }) == first_block(bs@,
            if dangerous { |b: Block| is_dangerous(b) } else { |b: Block| is_candidate(b) }, 0),
        r matches Some(k) ==> k < bs@.len(),
{
    let ghost p = if dangerous { |b: Block| is_dangerous(b) } else { |b: Block| is_candidate(b) };
    proof { reveal_strlit("Bash"); }
    let mut i: usize = 0;
    while i < bs.len()
        invariant
            i <= bs@.len(),
            p == (if dangerous { |b: Block| is_dangerous(b) } else { |b: Block| is_candidate(b) }),
            first_block(bs@, p, 0) == first_block(bs@, p, i as int),
        decreases bs.len() - i,
    {
        let hit = match &bs[i] {
            Block::ToolUse { id: Some(_), name: Some(n), input } => {
                if dangerous {
                    str_eq(n.as_str(), "Bash") && match input {
                        Some(inp) => inp.command.is_some() && inp.dangerous_command,
                        None => false,
                    }
                } else {
                    true
                }
            },
            _ => false,
        };
        if hit {
            return Some(i);
        }
        i = i + 1;
    }
    None
}

fn pending_at(b: &Block, ts: &Option<String>) -> (p: PendingToolUse)
    requires
        is_candidate(*b),
    ensures
        pending_view(p) == pending_from(*b, opt_view(*ts)),
{
    proof { reveal_strlit("Bash"); }
    match b {
        Block::ToolUse { id: Some(id), name: Some(n), input } => {
            let bash = str_eq(n.as_str(), "Bash");
            let command = if bash {
                match input {
                    Some(i) => match &i.command {
                        Some(c) => Some(c.clone()),
                        None => None,
                    },
                    None => None,
                }
            } else {
                None
            };
            let dangerous = bash && match input {
                Some(i) => i.command.is_some() && i.dangerous_command,
                None => false,
            };
            PendingToolUse {
                tool_use_id: id.clone(),
                tool_name: n.clone(),
                command,
                since_utc: match ts { Some(t) => Some(t.clone()), None => None },
                dangerous,
            }
        },
        _ => {
            assert(false);
            PendingToolUse { tool_use_id: String::new(), tool_name: String::new(), command: None, since_utc: None, dangerous: false }
        },
    }
}

/// See [`spec_pending`].
pub fn newest_pending_tool_use(rec: &Record) -> (r: Option<PendingToolUse>)
    ensures
        (match r { Some(p) => Some(pending_view(p)), None => None }) == spec_pending(*rec),
{
    if !crate::model::is_type(rec, "assistant") {
        return None;
    }
    let bs = match record_blocks(rec) {
        Some(bs) => bs,
        None => return None,
    };
    match first_block_exec(bs, true) {
        Some(k) => {
            proof {
                lemma_first_block(bs@, |b: Block| is_dangerous(b), 0);
                assert(is_dangerous(bs@[k as int]));
            }
            Some(pending_at(&bs[k], &rec.timestamp))
        },
        None => match first_block_exec(bs, false) {
            Some(k) => {
                proof {
                    lemma_first_block(bs@, |b: Block| is_candidate(b), 0);
                }
                Some(pending_at(&bs[k], &rec.timestamp))
            },
            None => None,
        },
    }
}

/// A record that resolves or advances the lane: assistant end-of-turn text, a person's
/// user turn, or a tool-result carrier.
pub open spec fn is_meaningful(rec: Record) -> bool {
    spec_agent_text(rec) is Some || spec_user_turn_text(rec) is Some
        || (match spec_blocks(rec) { Some(bs) => has_tool_result(bs), None => false })
}

pub fn record_is_meaningful(rec: &Record) -> (b: bool)
    ensures
        b == is_meaningful(*rec),
{
    agent_text(rec).is_some() || user_turn_text(rec).is_some() || match record_blocks(rec) {
        Some(bs) => any_tool_result(bs),
        None => false,
    }
}

/// Lifecycle facts derived from a subagent transcript (and its workflow journal).
#[derive(Debug, Clone)]
pub struct SubagentLifecycle {
    pub agent_type: Option<String>,
    pub description: Option<String>,
    /// The first timestamped record's time: the start.
    pub started_utc: Option<String>,
    /// The newest timestamped record's time: completion or last activity.
    pub completed_utc: Option<String>,
    pub status: SubagentStatus,
    /// Set when the newest meaningful record is an unreturned tool call.
    pub pending: Option<PendingToolUse>,
    pub skipped_lines: usize,
}

/// The timestamp of the first record (from index `from`) that has one.
pub open spec fn first_stamp(rs: Seq<Record>, from: int) -> Option<Seq<char>>
    decreases rs.len() - from,
{
    if from >= rs.len() || from < 0 {
        None
    } else if rs[from].timestamp is Some {
        opt_view(rs[from].timestamp)
    } else {
        first_stamp(rs, from + 1)
    }
}

/// The timestamp of the newest record (among the first `n`) that has one.
pub open spec fn last_stamp(rs: Seq<Record>, n: int) -> Option<Seq<char>>
    decreases n,
{
    if n <= 0 {
        None
    } else if rs[n - 1].timestamp is Some {
        opt_view(rs[n - 1].timestamp)
    } else {
        last_stamp(rs, n - 1)
    }
}

/// Walking back from the newest of the first `n` records: the first record that is an
/// unreturned call decides the lane frozen there; the first meaningful one decides it not
/// frozen; others are passed over.
pub open spec fn frozen_at(rs: Seq<Record>, n: int) -> Option<PendingView>
    decreases n,
{
    if n <= 0 {
        None
    } else if spec_pending(rs[n - 1]) is Some {
        spec_pending(rs[n - 1])
    } else if is_meaningful(rs[n - 1]) {
        None
    } else {
        frozen_at(rs, n - 1)
    }
}

/// Does some record carry visible assistant text (a clean end of turn)?
pub open spec fn has_terminal_text(rs: Seq<Record>) -> bool {
    exists|i: int| 0 <= i < rs.len() && (#[trigger] spec_agent_text(rs[i])) is Some
}

/// The frozen signal is dropped for a journal-completed agent and for a transcript with no
/// start time.
pub open spec fn spec_pending_of(rs: Seq<Record>, journal_done: bool) -> Option<PendingView> {
    if journal_done || first_stamp(rs, 0) is None { None } else { frozen_at(rs, rs.len() as int) }
}

/// The status: a frozen lane is running, never completed; otherwise the status rule.
pub open spec fn spec_status(rs: Seq<Record>, journal_done: bool) -> SubagentStatus {
    if spec_pending_of(rs, journal_done) is Some {
        SubagentStatus::Running
    } else {
        spec_resolve_status(rs.len() > 0, journal_done, has_terminal_text(rs), first_stamp(rs, 0) is Some)
    }
}

fn clone_opt(o: &Option<String>) -> (r: Option<String>)
    ensures
        opt_view(r) == opt_view(*o),
{
    match o {
        Some(s) => Some(s.clone()),
        None => None,
    }
}

/// The lifecycle of a subagent from its transcript's records (file order), the malformed
/// lines its reads skipped, and whether its workflow journal reports a result.
pub fn lifecycle(sub: &Subagent, records: &Vec<Record>, skipped: usize, journal_done: bool) -> (lc: SubagentLifecycle)
    ensures
        opt_view(lc.agent_type) == opt_view(sub.agent_type),
        opt_view(lc.description) == opt_view(sub.description),
        opt_view(lc.started_utc) == first_stamp(records@, 0),
        opt_view(lc.completed_utc) == last_stamp(records@, records@.len() as int),
        lc.status == spec_status(records@, journal_done),
        (match lc.pending { Some(p) => Some(pending_view(p)), None => None }) == spec_pending_of(records@, journal_done),
        lc.skipped_lines == skipped,
{
    let ghost rs = records@;
    let mut started: Option<String> = None;
    let mut i: usize = 0;
    while i < records.len() && started.is_none()
        invariant
            i <= records@.len(),
            rs == records@,
            started is None ==> first_stamp(rs, 0) == first_stamp(rs, i as int),
            started is Some ==> opt_view(started) == first_stamp(rs, 0),
        decreases records.len() - i,
    {
        if records[i].timestamp.is_some() {
            started = clone_opt(&records[i].timestamp);
        }
        i = i + 1;
    }
    let mut completed: Option<String> = None;
    let mut j: usize = records.len();
    while j > 0 && completed.is_none()
        invariant
            j <= records@.len(),
            rs == records@,
            completed is None ==> last_stamp(rs, rs.len() as int) == last_stamp(rs, j as int),
            completed is Some ==> opt_view(completed) == last_stamp(rs, rs.len() as int),
        decreases j,
    {
        if records[j - 1].timestamp.is_some() {
            completed = clone_opt(&records[j - 1].timestamp);
        }
        j = j - 1;
    }
    let mut pending: Option<PendingToolUse> = None;
    let mut decided = false;
    let mut k: usize = records.len();
    while k > 0 && !decided
        invariant
            k <= records@.len(),
            rs == records@,
            !decided ==> pending is None && frozen_at(rs, rs.len() as int) == frozen_at(rs, k as int),
            decided ==> (match pending { Some(p) => Some(pending_view(p)), None => None }) == frozen_at(rs, rs.len() as int),
        decreases k,
    {
        match newest_pending_tool_use(&records[k - 1]) {
            Some(p) => {
                pending = Some(p);
                decided = true;
            },
            None => {
                if record_is_meaningful(&records[k - 1]) {
                    decided = true;
                }
            },
        }
        k = k - 1;
    }
    let mut terminal = false;
    let mut q: usize = 0;
    while q < records.len()
        invariant
            q <= records@.len(),
            rs == records@,
            terminal == exists|x: int| 0 <= x < q && (#[trigger] spec_agent_text(rs[x])) is Some,
        decreases records.len() - q,
    {
        if agent_text(&records[q]).is_some() {
            terminal = true;
        }
        q = q + 1;
    }
    if journal_done || started.is_none() {
        pending = None;
    }
    let status = if pending.is_some() {
        SubagentStatus::Running
    } else {
        resolve_status(records.len() > 0, journal_done, terminal, started.is_some())
    };
    SubagentLifecycle {
        agent_type: clone_opt(&sub.agent_type),
        description: clone_opt(&sub.description),
        started_utc: started,
        completed_utc: completed,
        status,
        pending,
        skipped_lines: skipped,
    }
}

/// One spawn fact: the spawning tool's name, the call's timestamp (the true trigger
/// time), and the call's `description` and `subagent_type` inputs.
#[derive(Debug, Clone)]
pub struct SpawnMeta {
    pub name: Option<String>,
    pub trigger_utc: Option<String>,
    pub description: Option<String>,
    pub subagent_type: Option<String>,
}

pub type MetaView = (Option<Seq<char>>, Option<Seq<char>>, Option<Seq<char>>, Option<Seq<char>>);

pub open spec fn meta_view(m: SpawnMeta) -> MetaView {
    (opt_view(m.name), opt_view(m.trigger_utc), opt_view(m.description), opt_view(m.subagent_type))
}

/// The spawn index of a session: per spawning call id its facts and issuing agent (`None`
/// for the main session), per call id its result text, and per spawn `name` input the
/// `(trigger time, call id)` of every call that named it, in order. Each table is kept in
/// key order, one entry per key; a later fact for a key replaces an earlier one.
#[derive(Debug, Clone)]
pub struct ParentSpawnIndex {
    pub spawns: Vec<(String, SpawnMeta)>,
    pub tool_results: Vec<(String, String)>,
    pub issuer: Vec<(String, Option<String>)>,
    pub by_name: Vec<(String, Vec<(Option<String>, String)>)>,
}

impl ParentSpawnIndex {
    pub open spec fn wf(self) -> bool {
        &&& key_sorted(self.spawns@)
        &&& key_sorted(self.tool_results@)
        &&& key_sorted(self.issuer@)
        &&& key_sorted(self.by_name@)
    }

    pub fn new() -> (idx: ParentSpawnIndex)
        ensures
            idx.wf(),
            idx.spawns@.len() == 0 && idx.tool_results@.len() == 0 && idx.issuer@.len() == 0 && idx.by_name@.len() == 0,
    {
        ParentSpawnIndex { spawns: Vec::new(), tool_results: Vec::new(), issuer: Vec::new(), by_name: Vec::new() }
    }
}

/// Does the tool spawn a subagent?
pub open spec fn is_spawn_name(n: Seq<char>) -> bool {
    n == "Agent"@ || n == "Task"@ || n == "Workflow"@
}

pub fn is_spawn_tool(name: &str) -> (b: bool)
    ensures
        b == is_spawn_name(name@),
{
    str_eq(name, "Agent") || str_eq(name, "Task") || str_eq(name, "Workflow")
}

/// The spawn facts of one block: a spawning call's id, facts and issuer.
pub open spec fn spawn_event(b: Block, ts: Option<Seq<char>>) -> Option<(Seq<char>, MetaView)> {
    match b {
        Block::ToolUse { id: Some(id), name: Some(n), input } => if is_spawn_name(n@) {
            Some((id@, (Some(n@), ts,
                match input { Some(i) => opt_view(i.description), None => None },
                match input { Some(i) => opt_view(i.subagent_type), None => None })))
        } else {
            None
        },
        _ => None,
    }
}

/// The name fact of one block: a spawning call's `name` input, its time and its id.
pub open spec fn name_event(b: Block, ts: Option<Seq<char>>) -> Option<(Seq<char>, (Option<Seq<char>>, Seq<char>))> {
    match b {
        Block::ToolUse { id: Some(id), name: Some(n), input: Some(i) } => if is_spawn_name(n@) {
            match i.name {
                Some(nm) => Some((nm@, (ts, id@))),
                None => None,
            }
        } else {
            None
        },
        _ => None,
    }
}

/// The result fact of one block: a result's call id and text.
pub open spec fn result_event(b: Block) -> Option<(Seq<char>, Seq<char>)> {
    match b {
        Block::ToolResult { tool_use_id: Some(id), content: Some(c), .. } => Some((id@, c@)),
        _ => None,
    }
}

/// The latest fact for key `k` among the first `n` blocks, by `f`.
pub open spec fn latest<V>(bs: Seq<Block>, f: spec_fn(Block) -> Option<(Seq<char>, V)>, k: Seq<char>, n: int) -> Option<V>
    decreases n,
{
    if n <= 0 {
        None
    } else {
        match f(bs[n - 1]) {
            Some(e) => if e.0 == k { Some(e.1) } else { latest(bs, f, k, n - 1) },
            None => latest(bs, f, k, n - 1),
        }
    }
}

/// The name facts for `nm` among the first `n` blocks, in order.
pub open spec fn named(bs: Seq<Block>, ts: Option<Seq<char>>, nm: Seq<char>, n: int) -> Seq<(Option<Seq<char>>, Seq<char>)>
    decreases n,
{
    if n <= 0 {
        seq![]
    } else {
        let p = named(bs, ts, nm, n - 1);
        match name_event(bs[n - 1], ts) {
            Some(e) => if e.0 == nm { p.push(e.1) } else { p },
            None => p,
        }
    }
}

pub open spec fn spawn_of(idx: ParentSpawnIndex, id: Seq<char>) -> Option<MetaView> {
    match value_at(idx.spawns@, id) {
        Some(m) => Some(meta_view(m)),
        None => None,
    }
}

pub open spec fn result_of(idx: ParentSpawnIndex, id: Seq<char>) -> Option<Seq<char>> {
    match value_at(idx.tool_results@, id) {
        Some(t) => Some(t@),
        None => None,
    }
}

pub open spec fn issuer_of(idx: ParentSpawnIndex, id: Seq<char>) -> Option<Option<Seq<char>>> {
    match value_at(idx.issuer@, id) {
        Some(i) => Some(opt_view(i)),
        None => None,
    }
}

pub open spec fn pair_views(v: Seq<(Option<String>, String)>) -> Seq<(Option<Seq<char>>, Seq<char>)> {
    v.map_values(|p: (Option<String>, String)| (opt_view(p.0), p.1@))
}

/// The spawns that named `nm` (empty when none did).
pub open spec fn names_of(idx: ParentSpawnIndex, nm: Seq<char>) -> Seq<(Option<Seq<char>>, Seq<char>)> {
    match value_at(idx.by_name@, nm) {
        Some(v) => pair_views(v@),
        None => seq![],
    }
}

fn copy_pairs(v: &Vec<(Option<String>, String)>) -> (out: Vec<(Option<String>, String)>)
    ensures
        pair_views(out@) == pair_views(v@),
{
    let mut out: Vec<(Option<String>, String)> = Vec::new();
    let mut i: usize = 0;
    while i < v.len()
        invariant
            i <= v@.len(),
            pair_views(out@) == pair_views(v@).take(i as int),
        decreases v.len() - i,
    {
        let e = (clone_opt(&v[i].0), v[i].1.clone());
        assert((opt_view(e.0), e.1@) == (opt_view(v@[i as int].0), v@[i as int].1@));
        let ghost prev = out@;
        out.push(e);
        assert(pair_views(out@) =~= pair_views(prev).push((opt_view(e.0), e.1@)));
        assert(pair_views(v@).take(i + 1) =~= pair_views(v@).take(i as int).push(pair_views(v@)[i as int]));
        i = i + 1;
    }
    assert(pair_views(v@).take(v@.len() as int) =~= pair_views(v@));
    out
}

/// Fold one record's spawning calls and results into the index, `issuer` tagging each
/// spawn with the agent whose transcript recorded it (`None` for the main session).
pub fn accumulate_spawns(rec: &Record, issuer: &Option<String>, idx: &mut ParentSpawnIndex)
    requires
        old(idx).wf(),
    ensures
        final(idx).wf(),
        ({
            let bs = match spec_blocks(*rec) { Some(b) => b, None => seq![] };
            let ts = opt_view(rec.timestamp);
            &&& forall|id: Seq<char>| #[trigger] spawn_of(*final(idx), id) == match latest(bs, |b: Block| spawn_event(b, ts), id, bs.len() as int) {
                Some(m) => Some(m),
                None => spawn_of(*old(idx), id),
            }
            &&& forall|id: Seq<char>| #[trigger] issuer_of(*final(idx), id) == match latest(bs, |b: Block| spawn_event(b, ts), id, bs.len() as int) {
                Some(_) => Some(opt_view(*issuer)),
                None => issuer_of(*old(idx), id),
            }
            &&& forall|id: Seq<char>| #[trigger] result_of(*final(idx), id) == match latest(bs, |b: Block| result_event(b), id, bs.len() as int) {
                Some(t) => Some(t),
                None => result_of(*old(idx), id),
            }
            &&& forall|nm: Seq<char>| #[trigger] names_of(*final(idx), nm) == names_of(*old(idx), nm) + named(bs, ts, nm, bs.len() as int)
        }),
{
    let ghost ts = opt_view(rec.timestamp);
    let ghost start = *idx;
    let bs = match record_blocks(rec) {
        Some(b) => b,
        None => {
            proof {
                assert forall|nm: Seq<char>| #[trigger] names_of(*idx, nm) == names_of(start, nm) + named(seq![], ts, nm, 0) by {
                    assert(names_of(start, nm) + seq![] =~= names_of(start, nm));
                }
            }
            return;
        },
    };
    let ghost sf = |b: Block| spawn_event(b, ts);
    let ghost rf = |b: Block| result_event(b);
    let mut j: usize = 0;
    while j < bs.len()
        invariant
            j <= bs@.len(),
            idx.wf(),
            ts == opt_view(rec.timestamp),
            sf == |b: Block| spawn_event(b, ts),
            rf == |b: Block| result_event(b),
            forall|id: Seq<char>| #[trigger] spawn_of(*idx, id) == match latest(bs@, sf, id, j as int) {
                Some(m) => Some(m),
                None => spawn_of(start, id),
            },
            forall|id: Seq<char>| #[trigger] issuer_of(*idx, id) == match latest(bs@, sf, id, j as int) {
                Some(_) => Some(opt_view(*issuer)),
                None => issuer_of(start, id),
            },
            forall|id: Seq<char>| #[trigger] result_of(*idx, id) == match latest(bs@, rf, id, j as int) {
                Some(t) => Some(t),
                None => result_of(start, id),
            },
            forall|nm: Seq<char>| #[trigger] names_of(*idx, nm) == names_of(start, nm) + named(bs@, ts, nm, j as int),
        decreases bs.len() - j,
    {
        let ghost before = *idx;
        match &bs[j] {
            Block::ToolUse { id: Some(id), name: Some(n), input } => {
                if is_spawn_tool(n.as_str()) {
                    let meta = SpawnMeta {
                        name: Some(n.clone()),
                        trigger_utc: clone_opt(&rec.timestamp),
                        description: match input { Some(i) => clone_opt(&i.description), None => None },
                        subagent_type: match input { Some(i) => clone_opt(&i.subagent_type), None => None },
                    };
                    let ghost mv = meta_view(meta);
                    assert(spawn_event(bs@[j as int], ts) == Some((id@, mv)));
                    put(&mut idx.spawns, id.as_str(), meta);
                    let who = clone_opt(issuer);
                    let ghost wv = opt_view(who);
                    put(&mut idx.issuer, id.as_str(), who);
                    let spawn_name: Option<&String> = match input {
                        Some(i) => match &i.name {
                            Some(nm) => Some(nm),
                            None => None,
                        },
                        None => None,
                    };
                    let ghost mid = *idx;
                    if let Some(nm) = spawn_name {
                        let mut list = match crate::stats::tally::lookup(&idx.by_name, nm.as_str()) {
                            Some(v) => copy_pairs(v),
                            None => Vec::new(),
                        };
                        let ghost lv = pair_views(list@);
                        assert(lv == names_of(mid, nm@));
                        list.push((clone_opt(&rec.timestamp), id.clone()));
                        assert(pair_views(list@) =~= lv.push((ts, id@)));
                        put(&mut idx.by_name, nm.as_str(), list);
                        proof {
                            assert(name_event(bs@[j as int], ts) == Some((nm@, (ts, id@))));
                            assert forall|q: Seq<char>| #[trigger] names_of(*idx, q) == names_of(start, q) + named(bs@, ts, q, j + 1) by {
                                assert(names_of(mid, q) == names_of(before, q));
                                if q == nm@ {
                                    assert(names_of(start, q) + named(bs@, ts, q, j + 1)
                                        =~= (names_of(start, q) + named(bs@, ts, q, j as int)).push((ts, id@)));
                                } else {
                                    assert(named(bs@, ts, q, j + 1) == named(bs@, ts, q, j as int));
                                }
                            }
                        }
                    } else {
                        proof {
                            assert(name_event(bs@[j as int], ts) is None);
                            assert forall|q: Seq<char>| #[trigger] names_of(*idx, q) == names_of(start, q) + named(bs@, ts, q, j + 1) by {
                                assert(named(bs@, ts, q, j + 1) == named(bs@, ts, q, j as int));
                                assert(names_of(*idx, q) == names_of(before, q));
                            }
                        }
                    }
                    proof {
                        assert(rf(bs@[j as int]) is None);
                        assert forall|k: Seq<char>| #[trigger] result_of(*idx, k) == match latest(bs@, rf, k, j + 1) {
                            Some(t) => Some(t),
                            None => result_of(start, k),
                        } by {
                            assert(latest(bs@, rf, k, j + 1) == latest(bs@, rf, k, j as int));
                            assert(result_of(*idx, k) == result_of(before, k));
                        }
                        assert forall|k: Seq<char>| #[trigger] spawn_of(*idx, k) == match latest(bs@, sf, k, j + 1) {
                            Some(m) => Some(m),
                            None => spawn_of(start, k),
                        } by {
                            assert(sf(bs@[j as int]) == Some((id@, mv)));
                            if k == id@ {
                                assert(latest(bs@, sf, k, j + 1) == Some(mv));
                            } else {
                                assert(latest(bs@, sf, k, j + 1) == latest(bs@, sf, k, j as int));
                                assert(spawn_of(*idx, k) == spawn_of(before, k));
                            }
                        }
                        assert forall|k: Seq<char>| #[trigger] issuer_of(*idx, k) == match latest(bs@, sf, k, j + 1) {
                            Some(_) => Some(opt_view(*issuer)),
                            None => issuer_of(start, k),
                        } by {
                            assert(sf(bs@[j as int]) == Some((id@, mv)));
                            if k == id@ {
                                assert(latest(bs@, sf, k, j + 1) == Some(mv));
                            } else {
                                assert(latest(bs@, sf, k, j + 1) == latest(bs@, sf, k, j as int));
                                assert(issuer_of(*idx, k) == issuer_of(before, k));
                            }
                        }
                    }
                } else {
                    proof {
                        assert(name_event(bs@[j as int], ts) is None);
                        assert(rf(bs@[j as int]) is None);
                        assert(sf(bs@[j as int]) is None);
                        assert forall|k: Seq<char>| #[trigger] result_of(*idx, k) == match latest(bs@, rf, k, j + 1) {
                            Some(t) => Some(t),
                            None => result_of(start, k),
                        } by {
                            assert(latest(bs@, rf, k, j + 1) == latest(bs@, rf, k, j as int));
                        }
                        assert forall|k: Seq<char>| #[trigger] spawn_of(*idx, k) == match latest(bs@, sf, k, j + 1) {
                            Some(m) => Some(m),
                            None => spawn_of(start, k),
                        } by {
                            assert(latest(bs@, sf, k, j + 1) == latest(bs@, sf, k, j as int));
                        }
                        assert forall|k: Seq<char>| #[trigger] issuer_of(*idx, k) == match latest(bs@, sf, k, j + 1) {
                            Some(_) => Some(opt_view(*issuer)),
                            None => issuer_of(start, k),
                        } by {
                            assert(latest(bs@, sf, k, j + 1) == latest(bs@, sf, k, j as int));
                        }
                        assert forall|nm: Seq<char>| #[trigger] names_of(*idx, nm) == names_of(start, nm) + named(bs@, ts, nm, j + 1) by {
                            assert(named(bs@, ts, nm, j + 1) == named(bs@, ts, nm, j as int));
                        }
                    }
                }
            },
            Block::ToolResult { tool_use_id: Some(id), content: Some(c), .. } => {
                let text = c.clone();
                let ghost cv = text@;
                put(&mut idx.tool_results, id.as_str(), text);
                proof {
                    assert(rf(bs@[j as int]) == Some((id@, cv)));
                    assert(name_event(bs@[j as int], ts) is None);
                    assert(sf(bs@[j as int]) is None);
                    assert forall|k: Seq<char>| #[trigger] result_of(*idx, k) == match latest(bs@, rf, k, j + 1) {
                        Some(t) => Some(t),
                        None => result_of(start, k),
                    } by {
                        if k == id@ {
                            assert(latest(bs@, rf, k, j + 1) == Some(cv));
                        } else {
                            assert(latest(bs@, rf, k, j + 1) == latest(bs@, rf, k, j as int));
                            assert(result_of(*idx, k) == result_of(before, k));
                        }
                    }
                    assert forall|k: Seq<char>| #[trigger] spawn_of(*idx, k) == match latest(bs@, sf, k, j + 1) {
                        Some(m) => Some(m),
                        None => spawn_of(start, k),
                    } by {
                        assert(latest(bs@, sf, k, j + 1) == latest(bs@, sf, k, j as int));
                        assert(spawn_of(*idx, k) == spawn_of(before, k));
                    }
                    assert forall|k: Seq<char>| #[trigger] issuer_of(*idx, k) == match latest(bs@, sf, k, j + 1) {
                        Some(_) => Some(opt_view(*issuer)),
                        None => issuer_of(start, k),
                    } by {
                        assert(latest(bs@, sf, k, j + 1) == latest(bs@, sf, k, j as int));
                        assert(issuer_of(*idx, k) == issuer_of(before, k));
                    }
                    assert forall|nm: Seq<char>| #[trigger] names_of(*idx, nm) == names_of(start, nm) + named(bs@, ts, nm, j + 1) by {
                        assert(named(bs@, ts, nm, j + 1) == named(bs@, ts, nm, j as int));
                        assert(names_of(*idx, nm) == names_of(before, nm));
                    }
                }
            },
            _ => {
                proof {
                    assert(name_event(bs@[j as int], ts) is None);
                    assert(rf(bs@[j as int]) is None);
                    assert(sf(bs@[j as int]) is None);
                    assert forall|k: Seq<char>| #[trigger] result_of(*idx, k) == match latest(bs@, rf, k, j + 1) {
                        Some(t) => Some(t),
                        None => result_of(start, k),
                    } by {
                        assert(latest(bs@, rf, k, j + 1) == latest(bs@, rf, k, j as int));
                    }
                    assert forall|k: Seq<char>| #[trigger] spawn_of(*idx, k) == match latest(bs@, sf, k, j + 1) {
                        Some(m) => Some(m),
                        None => spawn_of(start, k),
                    } by {
                        assert(latest(bs@, sf, k, j + 1) == latest(bs@, sf, k, j as int));
                    }
                    assert forall|k: Seq<char>| #[trigger] issuer_of(*idx, k) == match latest(bs@, sf, k, j + 1) {
                        Some(_) => Some(opt_view(*issuer)),
                        None => issuer_of(start, k),
                    } by {
                        assert(latest(bs@, sf, k, j + 1) == latest(bs@, sf, k, j as int));
                    }
                    assert forall|nm: Seq<char>| #[trigger] names_of(*idx, nm) == names_of(start, nm) + named(bs@, ts, nm, j + 1) by {
                        assert(named(bs@, ts, nm, j + 1) == named(bs@, ts, nm, j as int));
                    }
                }
            },
        }
        j = j + 1;
    }
}

pub open spec fn blocks_of(r: Record) -> Seq<Block> {
    match spec_blocks(r) { Some(b) => b, None => seq![] }
}

/// A spawn's facts after folding the first `n` records over `prev`.
pub open spec fn spawn_after(prev: Option<MetaView>, rs: Seq<Record>, id: Seq<char>, n: int) -> Option<MetaView>
    decreases n,
{
    if n <= 0 {
        prev
    } else {
        match latest(blocks_of(rs[n - 1]), |b: Block| spawn_event(b, opt_view(rs[n - 1].timestamp)), id, blocks_of(rs[n - 1]).len() as int) {
            Some(m) => Some(m),
            None => spawn_after(prev, rs, id, n - 1),
        }
    }
}

/// A spawn's issuer after folding the first `n` records over `prev`.
pub open spec fn issuer_after(prev: Option<Option<Seq<char>>>, rs: Seq<Record>, who: Option<Seq<char>>, id: Seq<char>, n: int) -> Option<Option<Seq<char>>>
    decreases n,
{
    if n <= 0 {
        prev
    } else {
        match latest(blocks_of(rs[n - 1]), |b: Block| spawn_event(b, opt_view(rs[n - 1].timestamp)), id, blocks_of(rs[n - 1]).len() as int) {
            Some(_) => Some(who),
            None => issuer_after(prev, rs, who, id, n - 1),
        }
    }
}

/// A result's text after folding the first `n` records over `prev`.
pub open spec fn result_after(prev: Option<Seq<char>>, rs: Seq<Record>, id: Seq<char>, n: int) -> Option<Seq<char>>
    decreases n,
{
    if n <= 0 {
        prev
    } else {
        match latest(blocks_of(rs[n - 1]), |b: Block| result_event(b), id, blocks_of(rs[n - 1]).len() as int) {
            Some(t) => Some(t),
            None => result_after(prev, rs, id, n - 1),
        }
    }
}

/// The spawns naming `nm` among the first `n` records, in order.
pub open spec fn named_after(rs: Seq<Record>, nm: Seq<char>, n: int) -> Seq<(Option<Seq<char>>, Seq<char>)>
    decreases n,
{
    if n <= 0 {
        seq![]
    } else {
        named_after(rs, nm, n - 1) + named(blocks_of(rs[n - 1]), opt_view(rs[n - 1].timestamp), nm, blocks_of(rs[n - 1]).len() as int)
    }
}

/// Fold a transcript's records (file order) into the index, every spawn tagged with
/// `issuer`. Folding the main transcript and then each subagent transcript in order
/// builds the session's global index.
pub fn index_transcript(idx: &mut ParentSpawnIndex, records: &Vec<Record>, issuer: &Option<String>)
    requires
        old(idx).wf(),
    ensures
        final(idx).wf(),
        forall|id: Seq<char>| #[trigger] spawn_of(*final(idx), id) == spawn_after(spawn_of(*old(idx), id), records@, id, records@.len() as int),
        forall|id: Seq<char>| #[trigger] issuer_of(*final(idx), id) == issuer_after(issuer_of(*old(idx), id), records@, opt_view(*issuer), id, records@.len() as int),
        forall|id: Seq<char>| #[trigger] result_of(*final(idx), id) == result_after(result_of(*old(idx), id), records@, id, records@.len() as int),
        forall|nm: Seq<char>| #[trigger] names_of(*final(idx), nm) == names_of(*old(idx), nm) + named_after(records@, nm, records@.len() as int),
{
    let ghost start = *idx;
    let mut i: usize = 0;
    while i < records.len()
        invariant
            i <= records@.len(),
            idx.wf(),
            forall|id: Seq<char>| #[trigger] spawn_of(*idx, id) == spawn_after(spawn_of(start, id), records@, id, i as int),
            forall|id: Seq<char>| #[trigger] issuer_of(*idx, id) == issuer_after(issuer_of(start, id), records@, opt_view(*issuer), id, i as int),
            forall|id: Seq<char>| #[trigger] result_of(*idx, id) == result_after(result_of(start, id), records@, id, i as int),
            forall|nm: Seq<char>| #[trigger] names_of(*idx, nm) == names_of(start, nm) + named_after(records@, nm, i as int),
        decreases records.len() - i,
    {
        let ghost before = *idx;
        accumulate_spawns(&records[i], issuer, idx);
        proof {
            assert forall|nm: Seq<char>| #[trigger] names_of(*idx, nm) == names_of(start, nm) + named_after(records@, nm, i + 1) by {
                assert(names_of(start, nm) + named_after(records@, nm, i + 1) =~= names_of(start, nm) + named_after(records@, nm, i as int)
                    + named(blocks_of(records@[i as int]), opt_view(records@[i as int].timestamp), nm, blocks_of(records@[i as int]).len() as int));
            }
        }
        i = i + 1;
    }
}

impl ParentSpawnIndex {
    /// The facts of a spawning call, if indexed.
    pub fn spawn(&self, tool_use_id: &str) -> (r: Option<&SpawnMeta>)
        requires
            self.wf(),
        ensures
            (match r { Some(m) => Some(meta_view(*m)), None => None }) == spawn_of(*self, tool_use_id@),
    {
        crate::stats::tally::lookup(&self.spawns, tool_use_id)
    }

    /// The result text paired with a call, if present.
    pub fn tool_result_text(&self, tool_use_id: &str) -> (r: Option<&String>)
        requires
            self.wf(),
        ensures
            (match r { Some(t) => Some(t@), None => None }) == result_of(*self, tool_use_id@),
    {
        crate::stats::tally::lookup(&self.tool_results, tool_use_id)
    }

    /// The agent whose transcript issued a spawn: `None` when the main session issued it or
    /// the spawn is unknown.
    pub fn parent_agent_for(&self, spawn_tool_use_id: &str) -> (r: Option<String>)
        requires
            self.wf(),
        ensures
            opt_view(r) == match issuer_of(*self, spawn_tool_use_id@) { Some(w) => w, None => None },
    {
        match crate::stats::tally::lookup(&self.issuer, spawn_tool_use_id) {
            Some(w) => clone_opt(w),
            None => None,
        }
    }
}

/// Among the first `n` candidates, the index of the latest trigger at or before `bound`
/// (the last of equal latest ones).
pub open spec fn best_before(c: Seq<(Option<Seq<char>>, Seq<char>)>, bound: Seq<char>, n: int) -> Option<int>
    decreases n,
{
    if n <= 0 {
        None
    } else {
        let b = best_before(c, bound, n - 1);
        match c[n - 1].0 {
            Some(t) => if lex_le(t, bound) && (match b { Some(k) => lex_le(c[k].0->0, t), None => true }) {
                Some(n - 1)
            } else {
                b
            },
            None => b,
        }
    }
}

/// The spawning call for a named spawn: among the spawns that used the name, the latest
/// whose trigger is at or before `at_or_before`; the first recorded one when none
/// qualifies or no bound is given; `None` when the name never spawned.
pub open spec fn spec_spawn_for_name(c: Seq<(Option<Seq<char>>, Seq<char>)>, at_or_before: Option<Seq<char>>) -> Option<Seq<char>> {
    let first = if c.len() > 0 { Some(c[0].1) } else { None };
    match at_or_before {
        Some(bound) => match best_before(c, bound, c.len() as int) {
            Some(k) => Some(c[k].1),
            None => first,
        },
        None => first,
    }
}

impl ParentSpawnIndex {
    pub fn spawn_id_for_name(&self, name: &str, at_or_before: Option<&str>) -> (r: Option<String>)
        requires
            self.wf(),
        ensures
            opt_view(r) == spec_spawn_for_name(names_of(*self, name@), match at_or_before { Some(b) => Some(b@), None => None }),
    {
        let cands = match crate::stats::tally::lookup(&self.by_name, name) {
            Some(c) => c,
            None => {
                return None;
            },
        };
        let ghost cv = pair_views(cands@);
        if let Some(bound) = at_or_before {
            let mut best: Option<usize> = None;
            let mut i: usize = 0;
            while i < cands.len()
                invariant
                    i <= cands@.len(),
                    cv == pair_views(cands@),
                    (match best { Some(k) => Some(k as int), None => None }) == best_before(cv, bound@, i as int),
                    best matches Some(k) ==> k < i && cands@[k as int].0 is Some,
                decreases cands.len() - i,
            {
                if let Some(t) = &cands[i].0 {
                    let newer = match best {
                        Some(k) => match &cands[k].0 {
                            Some(bt) => str_le(bt.as_str(), t.as_str()),
                            None => true,
                        },
                        None => true,
                    };
                    if str_le(t.as_str(), bound) && newer {
                        best = Some(i);
                    }
                }
                i = i + 1;
            }
            if let Some(k) = best {
                return Some(cands[k].1.clone());
            }
        }
        if cands.len() > 0 {
            Some(cands[0].1.clone())
        } else {
            None
        }
    }
}

/// Where a subagent's returned message was read from.
#[derive(Debug, Clone, Copy, PartialEq, Eq, Structural)]
pub enum ReturnedMsgSource {
    /// A synchronous built-in: the spawning call's result text.
    SyncToolResult,
    /// An asynchronous launch: the child transcript's newest assistant text.
    AsyncChildTail,
    /// A workflow agent: its journal's `result` payload.
    WorkflowJournal,
}

impl ReturnedMsgSource {
    pub fn label(self) -> (l: &'static str)
        ensures
            l@ == match self {
                ReturnedMsgSource::SyncToolResult => "sync-tool-result"@,
                ReturnedMsgSource::AsyncChildTail => "async-child-tail"@,
                ReturnedMsgSource::WorkflowJournal => "workflow-journal"@,
            },
    {
        match self {
            ReturnedMsgSource::SyncToolResult => "sync-tool-result",
            ReturnedMsgSource::AsyncChildTail => "async-child-tail",
            ReturnedMsgSource::WorkflowJournal => "workflow-journal",
        }
    }
}

/// The newest visible assistant text among the first `n` records.
pub open spec fn tail_text(rs: Seq<Record>, n: int) -> Option<Seq<char>>
    decreases n,
{
    if n <= 0 {
        None
    } else if spec_agent_text(rs[n - 1]) is Some {
        spec_agent_text(rs[n - 1])
    } else {
        tail_text(rs, n - 1)
    }
}

/// The newest visible assistant text is read newest-first: when there is one, it is the
/// agent text of some record `j` and no record after `j` carries agent text; there is none
/// only when no record carries agent text.
pub proof fn lemma_tail_text_is_newest(rs: Seq<Record>, n: int)
    requires
        0 <= n <= rs.len(),
    ensures
        tail_text(rs, n) is None <==> (forall|k: int| 0 <= k < n ==> #[trigger] spec_agent_text(rs[k]) is None),
        tail_text(rs, n) is Some ==> exists|j: int| 0 <= j < n && #[trigger] spec_agent_text(rs[j]) == tail_text(rs, n)
            && forall|k: int| j < k < n ==> #[trigger] spec_agent_text(rs[k]) is None,
    decreases n,
{
    if n > 0 {
        lemma_tail_text_is_newest(rs, n - 1);
        if spec_agent_text(rs[n - 1]) is Some {
            assert(spec_agent_text(rs[n - 1]) == tail_text(rs, n));
        } else if tail_text(rs, n - 1) is Some {
            let j = choose|j: int| 0 <= j < n - 1 && #[trigger] spec_agent_text(rs[j]) == tail_text(rs, n - 1)
                && forall|k: int| j < k < n - 1 ==> #[trigger] spec_agent_text(rs[k]) is None;
            assert forall|k: int| j < k < n implies #[trigger] spec_agent_text(rs[k]) is None by {
                if k < n - 1 {
                    assert(spec_agent_text(rs[k]) is None);
                }
            }
        } else {
            assert forall|k: int| 0 <= k < n implies #[trigger] spec_agent_text(rs[k]) is None by {
                if k < n - 1 {
                    assert(spec_agent_text(rs[k]) is None);
                }
            }
        }
    }
}

/// The child transcript's newest visible assistant text (an async returned message).
pub fn child_tail_text(records: &Vec<Record>) -> (r: Option<String>)
    ensures
        opt_view(r) == tail_text(records@, records@.len() as int),
        r is None <==> (forall|k: int| 0 <= k < records@.len() ==> #[trigger] spec_agent_text(records@[k]) is None),
        r is Some ==> exists|j: int| 0 <= j < records@.len() && #[trigger] spec_agent_text(records@[j]) == opt_view(r)
            && forall|k: int| j < k < records@.len() ==> #[trigger] spec_agent_text(records@[k]) is None,
{
    proof { lemma_tail_text_is_newest(records@, records@.len() as int); }
    let mut i: usize = records.len();
    while i > 0
        invariant
            i <= records@.len(),
            tail_text(records@, records@.len() as int) == tail_text(records@, i as int),
        decreases i,
    {
        let t = agent_text(&records[i - 1]);
        if t.is_some() {
            proof { lemma_tail_text_is_newest(records@, records@.len() as int); }
            assert(opt_view(t) == tail_text(records@, records@.len() as int));
            return t;
        }
        i = i - 1;
    }
    None
}

/// The text an asynchronous launch leaves in the spawning call's result.
pub open spec fn async_sentinel() -> Seq<char> {
    "Async agent launched"@
}

/// The returned message and its source: a workflow agent's journal result; else the
/// spawning call's result text — unless it is an asynchronous launch notice, when the
/// child's newest assistant text stands in (the notice itself when there is none); with
/// no result for the spawn, the child's newest assistant text.
pub open spec fn spec_returned(kind: SubagentKind, result: Option<Seq<char>>, journal: Option<Seq<char>>,
    tail: Option<Seq<char>>) -> (Option<Seq<char>>, Option<ReturnedMsgSource>)
{
    if kind == SubagentKind::Workflow {
        match journal {
            Some(m) => (Some(m), Some(ReturnedMsgSource::WorkflowJournal)),
            None => (None, None),
        }
    } else {
        match result {
            Some(text) => if has_sub(text, async_sentinel()) {
                match tail {
                    Some(t) => (Some(t), Some(ReturnedMsgSource::AsyncChildTail)),
                    None => (Some(text), Some(ReturnedMsgSource::SyncToolResult)),
                }
            } else {
                (Some(text), Some(ReturnedMsgSource::SyncToolResult))
            },
            None => match tail {
                Some(t) => (Some(t), Some(ReturnedMsgSource::AsyncChildTail)),
                None => (None, None),
            },
        }
    }
}

/// The result text recorded for a subagent's spawning call, if it has one.
pub open spec fn spawn_result(idx: ParentSpawnIndex, spawn_id: Option<Seq<char>>) -> Option<Seq<char>> {
    match spawn_id {
        Some(id) => result_of(idx, id),
        None => None,
    }
}

/// Resolve a subagent's returned message (see [`spec_returned`]); `records` is the
/// child transcript and `journal_result` its workflow journal's result payload.
pub fn resolve_returned_message(sub: &Subagent, index: &ParentSpawnIndex, journal_result: &Option<String>,
    records: &Vec<Record>) -> (r: (Option<String>, Option<ReturnedMsgSource>))
    requires
        index.wf(),
    ensures
        (opt_view(r.0), r.1) == spec_returned(sub.kind, spawn_result(*index, opt_view(sub.spawn_tool_use_id)),
            opt_view(*journal_result), tail_text(records@, records@.len() as int)),
{
    if sub.kind == SubagentKind::Workflow {
        return match journal_result {
            Some(m) => (Some(m.clone()), Some(ReturnedMsgSource::WorkflowJournal)),
            None => (None, None),
        };
    }
    let result: Option<&String> = match &sub.spawn_tool_use_id {
        Some(id) => index.tool_result_text(id.as_str()),
        None => None,
    };
    match result {
        Some(text) => {
            let hay = to_chars(text.as_str());
            let needle = to_chars("Async agent launched");
            if contains_chars(hay.as_slice(), needle.as_slice()) {
                match child_tail_text(records) {
                    Some(t) => (Some(t), Some(ReturnedMsgSource::AsyncChildTail)),
                    None => (Some(text.clone()), Some(ReturnedMsgSource::SyncToolResult)),
                }
            } else {
                (Some(text.clone()), Some(ReturnedMsgSource::SyncToolResult))
            }
        },
        None => match child_tail_text(records) {
            Some(t) => (Some(t), Some(ReturnedMsgSource::AsyncChildTail)),
            None => (None, None),
        },
    }
}


/// One fully linked subagent: its lifecycle facts, the spawning call that launched it
/// (trigger time, issuing agent, tool), its returned message, a frozen lane's pending
/// call, the files it changed and its nesting depth.
#[derive(Debug, Clone)]
pub struct SubagentNode {
    pub agent_id: String,
    pub kind: SubagentKind,
    pub parent_session_id: String,
    /// The issuing subagent when this one nests under another.
    pub parent_agent_id: Option<String>,
    /// The spawning call's id (the join key).
    pub spawn_tool_use_id: Option<String>,
    /// The spawning tool's `name` input, when the spawn was indexed.
    pub spawn_tool: Option<String>,
    pub workflow_id: Option<String>,
    pub agent_type: Option<String>,
    pub name: Option<String>,
    pub team_name: Option<String>,
    pub description: Option<String>,
    /// The spawning call's time; the child's first timestamp when the spawn is unknown.
    pub trigger_utc: Option<String>,
    pub started_utc: Option<String>,
    /// The completion instant: present only for a completed lane.
    pub completed_utc: Option<String>,
    /// The newest timestamp of the child transcript, whatever the status.
    pub last_activity_utc: Option<String>,
    pub returned_message: Option<String>,
    pub returned_message_source: Option<ReturnedMsgSource>,
    pub status: SubagentStatus,
    pub pending_tool_use_id: Option<String>,
    pub pending_tool_name: Option<String>,
    pub pending_classification: Option<PendingClassification>,
    pub pending_since_utc: Option<String>,
    /// `(path, operation, is_create)` per file the subagent changed.
    pub files_changed: Vec<(String, String, bool)>,
    /// The number of subagent ancestors (0 for a direct subagent of the session).
    pub depth: usize,
    pub skipped_lines: usize,
}

/// The spawning call of a subagent: its recorded call id; for a teammate, which records
/// none, the call that spawned its name at or before it started.
pub open spec fn effective_spawn(sub: Subagent, started: Option<Seq<char>>, idx: ParentSpawnIndex) -> Option<Seq<char>> {
    match opt_view(sub.spawn_tool_use_id) {
        Some(id) => Some(id),
        None => if sub.kind == SubagentKind::Teammate {
            match opt_view(sub.name) {
                Some(nm) => spec_spawn_for_name(names_of(idx, nm), started),
                None => None,
            }
        } else {
            None
        },
    }
}

/// The indexed facts of a spawning call, if any.
pub open spec fn spawn_meta(idx: ParentSpawnIndex, eff: Option<Seq<char>>) -> Option<MetaView> {
    match eff {
        Some(id) => spawn_of(idx, id),
        None => None,
    }
}

/// The first of two optional values that is present.
pub open spec fn first_some(a: Option<Seq<char>>, b: Option<Seq<char>>) -> Option<Seq<char>> {
    if a is Some { a } else { b }
}

/// A pending call is escalation-blocked when it is a Bash command the harness hoists for
/// approval; any other pending call awaits execution.
pub open spec fn spec_classify(p: PendingView) -> PendingClassification {
    if p.1 == "Bash"@ && p.2 is Some && p.4 {
        PendingClassification::EscalationBlocked
    } else {
        PendingClassification::AwaitingExecution
    }
}

/// The agent that issued a spawning call (`None` for the main session or an unknown call).
pub open spec fn spawn_issuer(idx: ParentSpawnIndex, eff: Option<Seq<char>>) -> Option<Seq<char>> {
    match eff {
        Some(id) => match issuer_of(idx, id) {
            Some(w) => w,
            None => None,
        },
        None => None,
    }
}

fn meta_field(m: Option<&SpawnMeta>, which: u8) -> (r: Option<String>)
    ensures
        opt_view(r) == match m {
            Some(x) => if which == 0 { opt_view(x.trigger_utc) } else if which == 1 { opt_view(x.description) }
                else if which == 2 { opt_view(x.subagent_type) } else { opt_view(x.name) },
            None => None,
        },
{
    match m {
        Some(x) => if which == 0 {
            clone_opt(&x.trigger_utc)
        } else if which == 1 {
            clone_opt(&x.description)
        } else if which == 2 {
            clone_opt(&x.subagent_type)
        } else {
            clone_opt(&x.name)
        },
        None => None,
    }
}

fn or_else(a: Option<String>, b: Option<String>) -> (r: Option<String>)
    ensures
        opt_view(r) == first_some(opt_view(a), opt_view(b)),
{
    if a.is_some() { a } else { b }
}

/// Build the node of one subagent from its transcript's records (file order), the
/// malformed lines its read skipped, its workflow journal's verdict and result payload,
/// the session's spawn index and the files it changed.
pub fn node_for(sub: &Subagent, records: &Vec<Record>, skipped: usize, journal_done: bool,
    journal_result: &Option<String>, index: &ParentSpawnIndex, files_changed: Vec<(String, String, bool)>)
    -> (n: SubagentNode)
    requires
        index.wf(),
    ensures
        ({
            let rs = records@;
            let started = first_stamp(rs, 0);
            let eff = effective_spawn(*sub, started, *index);
            let meta = spawn_meta(*index, eff);
            let pending = spec_pending_of(rs, journal_done);
            &&& n.agent_id@ == sub.agent_id@
            &&& n.kind == sub.kind
            &&& n.parent_session_id@ == sub.parent_session_id@
            &&& opt_view(n.spawn_tool_use_id) == eff
            &&& opt_view(n.parent_agent_id) == spawn_issuer(*index, eff)
            &&& opt_view(n.spawn_tool) == (match meta { Some(m) => m.0, None => None })
            &&& opt_view(n.workflow_id) == opt_view(sub.workflow_id)
            &&& opt_view(n.agent_type) == (if sub.kind == SubagentKind::Teammate {
                    first_some(match meta { Some(m) => m.3, None => None }, opt_view(sub.agent_type))
                } else {
                    first_some(opt_view(sub.agent_type), match meta { Some(m) => m.3, None => None })
                })
            &&& opt_view(n.name) == opt_view(sub.name)
            &&& opt_view(n.team_name) == opt_view(sub.team_name)
            &&& opt_view(n.description) == first_some(opt_view(sub.description), match meta { Some(m) => m.2, None => None })
            &&& opt_view(n.trigger_utc) == first_some(match meta { Some(m) => m.1, None => None }, started)
            &&& opt_view(n.started_utc) == started
            &&& opt_view(n.completed_utc) == (if spec_status(rs, journal_done) == SubagentStatus::Completed {
                    last_stamp(rs, rs.len() as int)
                } else {
                    None
                })
            &&& opt_view(n.last_activity_utc) == last_stamp(rs, rs.len() as int)
            &&& (opt_view(n.returned_message), n.returned_message_source) == spec_returned(sub.kind,
                    spawn_result(*index, opt_view(sub.spawn_tool_use_id)), opt_view(*journal_result),
                    tail_text(rs, rs.len() as int))
            &&& n.status == spec_status(rs, journal_done)
            &&& (match pending {
                Some(p) => opt_view(n.pending_tool_use_id) == Some(p.0) && opt_view(n.pending_tool_name) == Some(p.1)
                    && n.pending_classification == Some(spec_classify(p)) && opt_view(n.pending_since_utc) == p.3,
                None => n.pending_tool_use_id is None && n.pending_tool_name is None
                    && n.pending_classification is None && n.pending_since_utc is None,
            })
            &&& n.files_changed@ == files_changed@
            &&& n.depth == 0
            &&& n.skipped_lines == skipped
        }),
{
    let lc = lifecycle(sub, records, skipped, journal_done);
    let eff: Option<String> = match &sub.spawn_tool_use_id {
        Some(id) => Some(id.clone()),
        None => if sub.kind == SubagentKind::Teammate {
            match &sub.name {
                Some(nm) => {
                    let bound: Option<&str> = match &lc.started_utc {
                        Some(s) => Some(s.as_str()),
                        None => None,
                    };
                    index.spawn_id_for_name(nm.as_str(), bound)
                },
                None => None,
            }
        } else {
            None
        },
    };
    let spawn: Option<&SpawnMeta> = match &eff {
        Some(id) => index.spawn(id.as_str()),
        None => None,
    };
    let trigger_utc = or_else(meta_field(spawn, 0), clone_opt(&lc.started_utc));
    let description = or_else(clone_opt(&lc.description), meta_field(spawn, 1));
    let agent_type = if sub.kind == SubagentKind::Teammate {
        or_else(meta_field(spawn, 2), clone_opt(&lc.agent_type))
    } else {
        or_else(clone_opt(&lc.agent_type), meta_field(spawn, 2))
    };
    let spawn_tool = meta_field(spawn, 3);
    let returned = resolve_returned_message(sub, index, journal_result, records);
    let (pending_tool_use_id, pending_tool_name, pending_classification, pending_since_utc) = match &lc.pending {
        Some(p) => {
            let class = if str_eq(p.tool_name.as_str(), "Bash") && p.command.is_some() && p.dangerous {
                PendingClassification::EscalationBlocked
            } else {
                PendingClassification::AwaitingExecution
            };
            proof {
                reveal_strlit("Bash");
            }
            (Some(p.tool_use_id.clone()), Some(p.tool_name.clone()), Some(class), clone_opt(&p.since_utc))
        },
        None => (None, None, None, None),
    };
    let parent_agent_id = match &eff {
        Some(id) => index.parent_agent_for(id.as_str()),
        None => None,
    };
    let completed_utc = if lc.status == SubagentStatus::Completed {
        clone_opt(&lc.completed_utc)
    } else {
        None
    };
    SubagentNode {
        agent_id: sub.agent_id.clone(),
        kind: sub.kind,
        parent_session_id: sub.parent_session_id.clone(),
        parent_agent_id,
        spawn_tool_use_id: eff,
        spawn_tool,
        workflow_id: clone_opt(&sub.workflow_id),
        agent_type,
        name: clone_opt(&sub.name),
        team_name: clone_opt(&sub.team_name),
        description,
        trigger_utc,
        started_utc: lc.started_utc,
        completed_utc,
        last_activity_utc: lc.completed_utc,
        returned_message: returned.0,
        returned_message_source: returned.1,
        status: lc.status,
        pending_tool_use_id,
        pending_tool_name,
        pending_classification,
        pending_since_utc,
        files_changed,
        depth: 0,
        skipped_lines: lc.skipped_lines,
    }
}

/// The recorded issuer of the node last listed under `id` among the first `n` nodes
/// (`None` when no node has that id).
pub open spec fn parent_of(ns: Seq<SubagentNode>, id: Seq<char>, n: int) -> Option<Option<Seq<char>>>
    decreases n,
{
    if n <= 0 {
        None
    } else if ns[n - 1].agent_id@ == id {
        Some(opt_view(ns[n - 1].parent_agent_id))
    } else {
        parent_of(ns, id, n - 1)
    }
}

/// The step up a chain of issuers: the issuer recorded for `id`, if any.
pub open spec fn step_up(ns: Seq<SubagentNode>, id: Seq<char>) -> Option<Seq<char>> {
    match parent_of(ns, id, ns.len() as int) {
        Some(p) => p,
        None => None,
    }
}

/// The number of issuers met walking up from `cur`, at most `fuel`.
pub open spec fn chain_depth(ns: Seq<SubagentNode>, cur: Option<Seq<char>>, fuel: nat) -> nat
    decreases fuel,
{
    match cur {
        None => 0,
        Some(pid) => if fuel == 0 {
            0
        } else {
            1 + chain_depth(ns, step_up(ns, pid), (fuel - 1) as nat)
        },
    }
}

/// The deepest chain of issuers a node is credited with: a cycle in a forged chain stops
/// counting here.
pub open spec fn depth_cap() -> nat {
    65
}

/// A node with its depth replaced.
pub open spec fn with_depth(n: SubagentNode, d: usize) -> SubagentNode {
    SubagentNode { depth: d, ..n }
}

fn opt_opt_view(o: Option<&Option<String>>) -> (r: Option<Option<String>>)
    ensures
        match r {
            Some(x) => o is Some && opt_view(x) == opt_view(*o->0),
            None => o is None,
        },
{
    match o {
        Some(x) => Some(clone_opt(x)),
        None => None,
    }
}

/// Set each node's depth to its number of subagent ancestors: the chain of issuers,
/// each looked up by id (the last node listed under an id wins), counted up to
/// [`depth_cap`].
pub fn assign_depths(nodes: &mut Vec<SubagentNode>)
    ensures
        final(nodes)@.len() == old(nodes)@.len(),
        forall|i: int| 0 <= i < old(nodes)@.len() ==> #[trigger] final(nodes)@[i] == with_depth(old(nodes)@[i],
            chain_depth(old(nodes)@, opt_view(old(nodes)@[i].parent_agent_id), depth_cap()) as usize),
{
    let ghost ns = nodes@;
    let mut table: Vec<(String, Option<String>)> = Vec::new();
    let mut i: usize = 0;
    while i < nodes.len()
        invariant
            ns == nodes@,
            i <= ns.len(),
            key_sorted(table@),
            forall|q: Seq<char>| #[trigger] has_key(table@, q) <==> parent_of(ns, q, i as int) is Some,
            forall|q: Seq<char>| #[trigger] has_key(table@, q) ==> Some(opt_view(value_at(table@, q)->0))
                == parent_of(ns, q, i as int),
        decreases ns.len() - i,
    {
        let pid = clone_opt(&nodes[i].parent_agent_id);
        put(&mut table, nodes[i].agent_id.as_str(), pid);
        i = i + 1;
    }
    let mut depths: Vec<usize> = Vec::new();
    let mut j: usize = 0;
    while j < nodes.len()
        invariant
            ns == nodes@,
            j <= ns.len(),
            depths@.len() == j,
            key_sorted(table@),
            forall|q: Seq<char>| #[trigger] has_key(table@, q) <==> parent_of(ns, q, ns.len() as int) is Some,
            forall|q: Seq<char>| #[trigger] has_key(table@, q) ==> Some(opt_view(value_at(table@, q)->0))
                == parent_of(ns, q, ns.len() as int),
            forall|k: int| 0 <= k < j ==> #[trigger] depths@[k] as nat
                == chain_depth(ns, opt_view(ns[k].parent_agent_id), depth_cap()),
        decreases ns.len() - j,
    {
        let mut depth: usize = 0;
        let mut cur = clone_opt(&nodes[j].parent_agent_id);
        while cur.is_some() && depth < 65
            invariant
                depth <= 65,
                key_sorted(table@),
                forall|q: Seq<char>| #[trigger] has_key(table@, q) <==> parent_of(ns, q, ns.len() as int) is Some,
                forall|q: Seq<char>| #[trigger] has_key(table@, q) ==> Some(opt_view(value_at(table@, q)->0))
                    == parent_of(ns, q, ns.len() as int),
                depth + chain_depth(ns, opt_view(cur), (65 - depth) as nat)
                    == chain_depth(ns, opt_view(ns[j as int].parent_agent_id), depth_cap()),
            decreases 65 - depth,
        {
            let pid = match &cur {
                Some(p) => p.clone(),
                None => String::new(),
            };
            let found = opt_opt_view(crate::stats::tally::lookup(&table, pid.as_str()));
            proof {
                assert(opt_view(cur) == Some(pid@));
                assert(chain_depth(ns, opt_view(cur), (65 - depth) as nat)
                    == 1 + chain_depth(ns, step_up(ns, pid@), (65 - depth - 1) as nat));
            }
            proof {
                if has_key(table@, pid@) {
                    assert(Some(opt_view(value_at(table@, pid@)->0)) == parent_of(ns, pid@, ns.len() as int));
                } else {
                    assert(parent_of(ns, pid@, ns.len() as int) is None);
                }
            }
            cur = match found {
                Some(p) => p,
                None => None,
            };
            assert(opt_view(cur) == step_up(ns, pid@));
            depth = depth + 1;
        }
        depths.push(depth);
        j = j + 1;
    }
    let ghost old_ns = nodes@;
    let mut buf: Vec<SubagentNode> = Vec::new();
    let mut k: usize = nodes.len();
    while k > 0
        invariant
            k <= old_ns.len(),
            nodes@ == old_ns.subrange(0, k as int),
            depths@.len() == old_ns.len(),
            buf@.len() == old_ns.len() - k,
            forall|m: int| 0 <= m < buf@.len() ==> #[trigger] buf@[m]
                == with_depth(old_ns[old_ns.len() - 1 - m], depths@[old_ns.len() - 1 - m]),
        decreases k,
    {
        let mut n = nodes.pop().unwrap();
        n.depth = depths[k - 1];
        buf.push(n);
        k = k - 1;
    }
    let mut m: usize = buf.len();
    while m > 0
        invariant
            m == buf@.len(),
            m <= old_ns.len(),
            nodes@.len() == old_ns.len() - m,
            forall|x: int| 0 <= x < nodes@.len() ==> #[trigger] nodes@[x]
                == with_depth(old_ns[x], depths@[x]),
            forall|y: int| 0 <= y < buf@.len() ==> #[trigger] buf@[y]
                == with_depth(old_ns[old_ns.len() - 1 - y], depths@[old_ns.len() - 1 - y]),
        decreases m,
    {
        let n = buf.pop().unwrap();
        nodes.push(n);
        m = m - 1;
    }
}


/// One line of a workflow journal as the logic reads it: its `type`, its `agentId`, and
/// its `result` payload (a string as written, any other value rendered as JSON text).
#[derive(Debug, Clone)]
pub struct JournalEvent {
    pub kind: Option<String>,
    pub agent_id: Option<String>,
    pub result: Option<String>,
}

/// Among the first `n` events, the payload of the first `result` event for `agent`
/// (`Some(None)` when that event carries no payload); `None` when there is none.
pub open spec fn journal_entry(evs: Seq<JournalEvent>, agent: Seq<char>, n: int) -> Option<Option<Seq<char>>>
    decreases n,
{
    if n <= 0 {
        None
    } else {
        let p = journal_entry(evs, agent, n - 1);
        if p is Some {
            p
        } else if opt_view(evs[n - 1].kind) == Some("result"@) && opt_view(evs[n - 1].agent_id) == Some(agent) {
            Some(opt_view(evs[n - 1].result))
        } else {
            None
        }
    }
}

/// A journal's completion table: per agent with a `result` event, the first such event's
/// payload, keyed by agent id in text order. An agent's key is present exactly when the
/// journal reports it completed.
pub fn journal_results(events: &Vec<JournalEvent>) -> (t: Vec<(String, Option<String>)>)
    ensures
        key_sorted(t@),
        forall|q: Seq<char>| #[trigger] has_key(t@, q) <==> journal_entry(events@, q, events@.len() as int) is Some,
        forall|q: Seq<char>| #[trigger] has_key(t@, q) ==> Some(opt_view(value_at(t@, q)->0))
            == journal_entry(events@, q, events@.len() as int),
{
    proof {
        reveal_strlit("result");
    }
    let mut t: Vec<(String, Option<String>)> = Vec::new();
    let mut i: usize = 0;
    while i < events.len()
        invariant
            i <= events@.len(),
            key_sorted(t@),
            forall|q: Seq<char>| #[trigger] has_key(t@, q) <==> journal_entry(events@, q, i as int) is Some,
            forall|q: Seq<char>| #[trigger] has_key(t@, q) ==> Some(opt_view(value_at(t@, q)->0))
                == journal_entry(events@, q, i as int),
        decreases events.len() - i,
    {
        let ev = &events[i];
        let is_result = match &ev.kind {
            Some(k) => str_eq(k.as_str(), "result"),
            None => false,
        };
        if is_result {
            if let Some(a) = &ev.agent_id {
                let seen = crate::stats::tally::lookup(&t, a.as_str()).is_some();
                if !seen {
                    put(&mut t, a.as_str(), clone_opt(&ev.result));
                }
            }
        }
        i = i + 1;
    }
    t
}


/// Does the workflow journal report this subagent completed? Only a workflow subagent
/// has a journal; `journal` is its completion table (see [`journal_results`]).
pub fn journal_reports_completion(sub: &Subagent, journal: &Vec<(String, Option<String>)>) -> (b: bool)
    requires
        key_sorted(journal@),
    ensures
        b == (sub.workflow_id is Some && has_key(journal@, sub.agent_id@)),
{
    if sub.workflow_id.is_none() {
        return false;
    }
    let r = crate::stats::tally::lookup(journal, sub.agent_id.as_str());
    proof {
        if has_key(journal@, sub.agent_id@) {
            assert(value_at(journal@, sub.agent_id@) is Some);
        }
    }
    r.is_some()
}

/// The `result` payload the workflow journal holds for this subagent: `None` for a
/// subagent with no journal, an agent the journal does not report, or a result event
/// without a payload.
pub fn journal_result(sub: &Subagent, journal: &Vec<(String, Option<String>)>) -> (r: Option<String>)
    requires
        key_sorted(journal@),
    ensures
        opt_view(r) == (if sub.workflow_id is Some && has_key(journal@, sub.agent_id@) {
            opt_view(value_at(journal@, sub.agent_id@)->0)
        } else {
            None
        }),
{
    if sub.workflow_id.is_none() {
        return None;
    }
    match crate::stats::tally::lookup(journal, sub.agent_id.as_str()) {
        Some(p) => clone_opt(p),
        None => None,
    }
}


/// The depth never exceeds the fuel it was counted with, so a forged cycle stops at the
/// cap instead of hanging.
pub proof fn lemma_depth_bounded(ns: Seq<SubagentNode>, cur: Option<Seq<char>>, fuel: nat)
    ensures
        chain_depth(ns, cur, fuel) <= fuel,
    decreases fuel,
{
    if fuel > 0 {
        if let Some(p) = cur {
            lemma_depth_bounded(ns, step_up(ns, p), (fuel - 1) as nat);
        }
    }
}

/// A chain that ends before the fuel runs out counts the same with more fuel.
pub proof fn lemma_depth_settled(ns: Seq<SubagentNode>, cur: Option<Seq<char>>, fuel: nat)
    requires
        chain_depth(ns, cur, fuel) < fuel,
    ensures
        chain_depth(ns, cur, fuel + 1) == chain_depth(ns, cur, fuel),
    decreases fuel,
{
    if let Some(p) = cur {
        lemma_depth_settled(ns, step_up(ns, p), (fuel - 1) as nat);
    }
}

/// A subagent issued by another sits one level below it: with the issuer's own chain
/// shorter than the cap, the child's depth is the issuer's depth plus one.
pub proof fn lemma_child_one_deeper(ns: Seq<SubagentNode>, issuer: Seq<char>)
    requires
        chain_depth(ns, step_up(ns, issuer), (depth_cap() - 1) as nat) < depth_cap() - 1,
    ensures
        chain_depth(ns, Some(issuer), depth_cap()) == 1 + chain_depth(ns, step_up(ns, issuer), depth_cap()),
{
    lemma_depth_settled(ns, step_up(ns, issuer), (depth_cap() - 1) as nat);
}

/// A direct subagent of the session (no issuing agent) sits at depth 0.
pub proof fn lemma_direct_subagent_depth_zero(ns: Seq<SubagentNode>, fuel: nat)
    ensures
        chain_depth(ns, None, fuel) == 0,
{
}

} // verus!
