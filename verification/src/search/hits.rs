//! Hit emission: which views of a record's blocks are emitted (richest selected view
//! first), the tool-name and pairing indexes of a file, and the pairing of a tool hit.

use vstd::prelude::*;
use crate::chars::str_eq;
use crate::labels::{Class, is_comm_class, spec_is_comm, spec_path};
use crate::model::{Block, Record, ToolInput, opt_view, record_raw_text, spec_blocks, spec_raw_text};
use crate::search::filter::{LabelFilter, spec_selected};
use crate::search::record_text::{render_tool_use, spec_render_tool_use, spec_tool_use_comm_class, tool_use_comm_class};
use crate::search::rows::Kept;
use crate::search::types::{Hit, Pairing};
use crate::search::matcher::{Matcher, spec_locate};
use crate::search::excerpt::{match_excerpt, spec_match_excerpt};
use crate::search::record_text::{RecordTexts, record_text_emission, spec_record_text_emission};

verus! {

/// The placeholder an opaque `redacted_thinking` block renders as.
pub open spec fn redacted_placeholder() -> Seq<char> {
    "[redacted thinking]"@
}

/// One emission of a record: the class, the text to match, and the tool name,
/// direction and tool-use id the hit carries.
#[derive(Debug, Clone)]
pub struct Emission {
    pub class: Class,
    pub text: String,
    pub tool_name: Option<String>,
    pub direction: Option<(String, String)>,
    pub tool_use_id: Option<String>,
}

/// The plain-value view of an emission.
pub type EmissionView = (Class, Seq<char>, Option<Seq<char>>, Option<(Seq<char>, Seq<char>)>, Option<Seq<char>>);

pub open spec fn dir_view(d: Option<(String, String)>) -> Option<(Seq<char>, Seq<char>)> {
    match d {
        Some(x) => Some((x.0@, x.1@)),
        None => None,
    }
}

pub open spec fn emission_view(e: Emission) -> EmissionView {
    (e.class, e.text@, opt_view(e.tool_name), dir_view(e.direction), opt_view(e.tool_use_id))
}

pub open spec fn emission_views(es: Seq<Emission>) -> Seq<EmissionView> {
    es.map_values(|e: Emission| emission_view(e))
}

/// The label set carries `c` and the filter selects it.
pub open spec fn has_sel(labels: Seq<Class>, f: LabelFilter, c: Class) -> bool {
    labels.contains(c) && spec_selected(f, spec_path(c))
}

/// The name of the first `(id, name)` entry for `id`.
pub open spec fn lookup_name(names: Seq<(String, String)>, id: Seq<char>) -> Option<Seq<char>>
    decreases names.len(),
{
    if names.len() == 0 {
        None
    } else if names[0].0@ == id {
        Some(names[0].1@)
    } else {
        lookup_name(names.drop_first(), id)
    }
}

/// What the record context hands the block loop.
pub struct BlockCtx<'a> {
    /// The record is an `assistant` record.
    pub is_assistant: bool,
    /// The record's label set, richest first.
    pub labels: &'a Vec<Class>,
    /// The user-facing dual (answer / rejection) already emitted, if any.
    pub user_dual: Option<Class>,
    /// The record's communication direction.
    pub direction: &'a Option<(String, String)>,
    /// Resolved persisted output replacing a tool result's inline text, when asked for
    /// and present.
    pub persisted: &'a Option<String>,
}

/// The emission of one block, if any.
pub open spec fn block_emission(b: Block, cx: BlockCtx<'_>, f: LabelFilter, names: Seq<(String, String)>) -> Option<EmissionView> {
    let labels = (*cx.labels)@;
    match b {
        Block::Thinking { thinking, .. } => if has_sel(labels, f, Class::AgentThinking) {
            Some((Class::AgentThinking, thinking@, None, None, None))
        } else {
            None
        },
        Block::RedactedThinking => if has_sel(labels, f, Class::AgentThinking) {
            Some((Class::AgentThinking, redacted_placeholder(), None, None, None))
        } else {
            None
        },
        Block::Text { text } => if cx.is_assistant && has_sel(labels, f, Class::AgentMessage) {
            Some((Class::AgentMessage, text@, None, None, None))
        } else {
            None
        },
        Block::ToolUse { id, name, input } => {
            let comm = spec_tool_use_comm_class(opt_view(name), input);
            let class = if comm is Some && has_sel(labels, f, comm->0) {
                comm
            } else if has_sel(labels, f, Class::AgentToolUse) {
                Some(Class::AgentToolUse)
            } else {
                None
            };
            match class {
                None => None,
                Some(c) => Some((
                    c,
                    spec_render_tool_use(opt_view(name), input),
                    opt_view(name),
                    if spec_is_comm(c) { dir_view(*cx.direction) } else { None },
                    opt_view(id),
                )),
            }
        },
        Block::ToolResult { tool_use_id, content, is_error } => match content {
            None => None,
            Some(c) => if cx.user_dual is Some {
                None
            } else {
                let class = if has_sel(labels, f, Class::CommInbox) {
                    Some(Class::CommInbox)
                } else if has_sel(labels, f, Class::AgentToolResult) {
                    Some(Class::AgentToolResult)
                } else {
                    None
                };
                match class {
                    None => None,
                    Some(k) => Some((
                        k,
                        match *cx.persisted { Some(p) => p@, None => c@ },
                        match tool_use_id { Some(id) => lookup_name(names, id@), None => None },
                        if k == Class::CommInbox { dir_view(*cx.direction) } else { None },
                        opt_view(tool_use_id),
                    )),
                }
            },
        },
        Block::Other => None,
    }
}

/// The emissions of a block list, in block order.
pub open spec fn block_emissions(bs: Seq<Block>, cx: BlockCtx<'_>, f: LabelFilter, names: Seq<(String, String)>) -> Seq<EmissionView>
    decreases bs.len(),
{
    if bs.len() == 0 {
        Seq::empty()
    } else {
        let rest = block_emissions(bs.drop_last(), cx, f, names);
        match block_emission(bs.last(), cx, f, names) {
            Some(e) => rest.push(e),
            None => rest,
        }
    }
}

fn has_class(labels: &Vec<Class>, c: Class) -> (b: bool)
    ensures
        b == labels@.contains(c),
{
    let mut i: usize = 0;
    while i < labels.len()
        invariant
            i <= labels.len(),
            forall|k: int| 0 <= k < i ==> labels@[k] != c,
        decreases labels.len() - i,
    {
        if labels[i] == c {
            assert(labels@[i as int] == c);
            return true;
        }
        i = i + 1;
    }
    false
}

fn has_and_selected(labels: &Vec<Class>, f: &LabelFilter, c: Class) -> (b: bool)
    ensures
        b == has_sel(labels@, *f, c),
{
    has_class(labels, c) && f.selected(c.path())
}

/// The tool name the index records for `id` (the first entry wins).
pub fn lookup_tool_name(names: &Vec<(String, String)>, id: &str) -> (r: Option<String>)
    ensures
        opt_view(r) == lookup_name(names@, id@),
{
    let mut i: usize = 0;
    assert(names@.skip(0) =~= names@);
    while i < names.len()
        invariant
            i <= names.len(),
            lookup_name(names@, id@) == lookup_name(names@.skip(i as int), id@),
        decreases names.len() - i,
    {
        assert(names@.skip(i as int).drop_first() =~= names@.skip(i as int + 1));
        assert(names@.skip(i as int)[0] == names@[i as int]);
        if str_eq(names[i].0.as_str(), id) {
            return Some(names[i].1.clone());
        }
        i = i + 1;
    }
    assert(names@.skip(names.len() as int) =~= Seq::<(String, String)>::empty());
    None
}

fn clone_dir(d: &Option<(String, String)>) -> (r: Option<(String, String)>)
    ensures
        dir_view(r) == dir_view(*d),
{
    match d {
        Some(x) => Some((x.0.clone(), x.1.clone())),
        None => None,
    }
}

fn clone_opt(o: &Option<String>) -> (r: Option<String>)
    ensures
        r == *o,
{
    match o {
        Some(s) => Some(s.clone()),
        None => None,
    }
}

fn one_block(b: &Block, cx: &BlockCtx<'_>, filter: &LabelFilter, names: &Vec<(String, String)>) -> (r: Option<Emission>)
    ensures
        match r {
            None => block_emission(*b, *cx, *filter, names@) is None,
            Some(e) => block_emission(*b, *cx, *filter, names@) == Some(emission_view(e)),
        },
{
    match b {
        Block::Thinking { thinking, .. } => {
            if has_and_selected(cx.labels, filter, Class::AgentThinking) {
                Some(Emission { class: Class::AgentThinking, text: thinking.clone(), tool_name: None, direction: None, tool_use_id: None })
            } else {
                None
            }
        },
        Block::RedactedThinking => {
            if has_and_selected(cx.labels, filter, Class::AgentThinking) {
                Some(Emission {
                    class: Class::AgentThinking,
                    text: "[redacted thinking]".to_string(),
                    tool_name: None,
                    direction: None,
                    tool_use_id: None,
                })
            } else {
                None
            }
        },
        Block::Text { text } => {
            if cx.is_assistant && has_and_selected(cx.labels, filter, Class::AgentMessage) {
                Some(Emission { class: Class::AgentMessage, text: text.clone(), tool_name: None, direction: None, tool_use_id: None })
            } else {
                None
            }
        },
        Block::ToolUse { id, name, input } => {
            let nm: Option<&str> = match name { Some(n) => Some(n.as_str()), None => None };
            let inp: Option<&ToolInput> = match input { Some(i) => Some(i), None => None };
            let comm = tool_use_comm_class(nm, inp);
            let class = match comm {
                Some(cc) if has_and_selected(cx.labels, filter, cc) => Some(cc),
                _ => if has_and_selected(cx.labels, filter, Class::AgentToolUse) {
                    Some(Class::AgentToolUse)
                } else {
                    None
                },
            };
            match class {
                None => None,
                Some(c) => {
                    let rendered = render_tool_use(nm, inp);
                    let dir = if is_comm_class(c) { clone_dir(cx.direction) } else { None };
                    Some(Emission { class: c, text: rendered, tool_name: clone_opt(name), direction: dir, tool_use_id: clone_opt(id) })
                },
            }
        },
        Block::ToolResult { tool_use_id, content, is_error: _ } => {
            let c = match content {
                None => return None,
                Some(c) => c,
            };
            if cx.user_dual.is_some() {
                return None;
            }
            let class = if has_and_selected(cx.labels, filter, Class::CommInbox) {
                Class::CommInbox
            } else if has_and_selected(cx.labels, filter, Class::AgentToolResult) {
                Class::AgentToolResult
            } else {
                return None;
            };
            let text = match cx.persisted {
                Some(p) => p.clone(),
                None => c.clone(),
            };
            let name = match tool_use_id {
                Some(id) => lookup_tool_name(names, id.as_str()),
                None => None,
            };
            let dir = if class == Class::CommInbox { clone_dir(cx.direction) } else { None };
            Some(Emission { class, text, tool_name: name, direction: dir, tool_use_id: clone_opt(tool_use_id) })
        },
        Block::Other => None,
    }
}

/// The block loop of a record: one emission per selected block-bearing unit — thinking
/// (the opaque redacted block as a placeholder), assistant text, a tool call (its
/// communication view when selected, else the plain call), a tool result (the inbox view
/// over the plain result; skipped when the user-facing dual was already emitted).
pub fn collect_block_hits(blocks: &Vec<Block>, cx: &BlockCtx<'_>, filter: &LabelFilter, names: &Vec<(String, String)>, out: &mut Vec<Emission>)
    ensures
        emission_views(final(out)@) == emission_views(old(out)@) + block_emissions(blocks@, *cx, *filter, names@),
{
    let ghost start = emission_views(out@);
    let mut i: usize = 0;
    while i < blocks.len()
        invariant
            i <= blocks.len(),
            emission_views(out@) == start + block_emissions(blocks@.take(i as int), *cx, *filter, names@),
        decreases blocks.len() - i,
    {
        let ghost before = out@;
        assert(blocks@.take(i as int + 1).drop_last() =~= blocks@.take(i as int));
        assert(blocks@.take(i as int + 1).last() == blocks@[i as int]);
        match one_block(&blocks[i], cx, filter, names) {
            Some(e) => {
                out.push(e);
                assert(emission_views(out@) =~= emission_views(before).push(emission_view(e)));
            },
            None => {},
        }
        i = i + 1;
    }
    assert(blocks@.take(blocks.len() as int) =~= blocks@);
}

/// The `(id, name)` of every `tool_use` block carrying both, in order.
pub open spec fn tool_uses_named(bs: Seq<Block>) -> Seq<(Seq<char>, Seq<char>)>
    decreases bs.len(),
{
    if bs.len() == 0 {
        Seq::empty()
    } else {
        let rest = tool_uses_named(bs.drop_last());
        match bs.last() {
            Block::ToolUse { id: Some(id), name: Some(name), .. } => rest.push((id@, name@)),
            _ => rest,
        }
    }
}

/// The ids of every `tool_use` block (`uses`) or every `tool_result`'s `tool_use_id`.
pub open spec fn block_ids(bs: Seq<Block>, uses: bool) -> Seq<Seq<char>>
    decreases bs.len(),
{
    if bs.len() == 0 {
        Seq::empty()
    } else {
        let rest = block_ids(bs.drop_last(), uses);
        match bs.last() {
            Block::ToolUse { id: Some(id), .. } => if uses { rest.push(id@) } else { rest },
            Block::ToolResult { tool_use_id: Some(id), .. } => if uses { rest } else { rest.push(id@) },
            _ => rest,
        }
    }
}

/// The blocks of a record, empty when its content is no block list.
pub open spec fn blocks_or_empty(r: Record) -> Seq<Block> {
    match spec_blocks(r) {
        Some(bs) => bs,
        None => Seq::empty(),
    }
}

/// Over the records in file order: every named tool call.
pub open spec fn file_tool_names(ks: Seq<Kept>) -> Seq<(Seq<char>, Seq<char>)>
    decreases ks.len(),
{
    if ks.len() == 0 { Seq::empty() } else { file_tool_names(ks.drop_last()) + tool_uses_named(blocks_or_empty(ks.last().rec)) }
}

/// Over the records in file order: every use id (`uses`) or every result's use id.
pub open spec fn file_ids(ks: Seq<Kept>, uses: bool) -> Seq<Seq<char>>
    decreases ks.len(),
{
    if ks.len() == 0 { Seq::empty() } else { file_ids(ks.drop_last(), uses) + block_ids(blocks_or_empty(ks.last().rec), uses) }
}

pub open spec fn pair_views(v: Seq<(String, String)>) -> Seq<(Seq<char>, Seq<char>)> {
    v.map_values(|p: (String, String)| (p.0@, p.1@))
}

pub open spec fn string_views(v: Seq<String>) -> Seq<Seq<char>> {
    v.map_values(|s: String| s@)
}

pub fn record_blocks(r: &Record) -> (bs: Option<&Vec<Block>>)
    ensures
        match bs {
            Some(b) => spec_blocks(*r) == Some(b@),
            None => spec_blocks(*r) is None,
        },
{
    match &r.message {
        Some(m) => match &m.content {
            Some(crate::model::Content::Blocks(b)) => Some(b),
            _ => None,
        },
        None => None,
    }
}

/// The `tool_use_id → tool name` index of a file: every `tool_use` block's id and name,
/// in file order (a lookup takes the first entry for an id).
pub fn build_tool_name_index(records: &[Kept]) -> (out: Vec<(String, String)>)
    ensures
        pair_views(out@) == file_tool_names(records@),
{
    let mut out: Vec<(String, String)> = Vec::new();
    let mut k: usize = 0;
    while k < records.len()
        invariant
            k <= records.len(),
            pair_views(out@) == file_tool_names(records@.take(k as int)),
        decreases records.len() - k,
    {
        let ghost base = pair_views(out@);
        assert(records@.take(k as int + 1).drop_last() =~= records@.take(k as int));
        let bs_opt = record_blocks(&records[k].rec);
        let ghost bs: Seq<Block> = blocks_or_empty(records@[k as int].rec);
        if let Some(bs_v) = bs_opt {
            let mut i: usize = 0;
            while i < bs_v.len()
                invariant
                    i <= bs_v@.len(),
                    bs == bs_v@,
                    pair_views(out@) == base + tool_uses_named(bs.take(i as int)),
                decreases bs_v.len() - i,
            {
                assert(bs.take(i as int + 1).drop_last() =~= bs.take(i as int));
                let ghost before = out@;
                match &bs_v[i] {
                    Block::ToolUse { id: Some(id), name: Some(name), .. } => {
                        out.push((id.clone(), name.clone()));
                        assert(pair_views(out@) =~= pair_views(before).push((id@, name@)));
                    },
                    _ => {},
                }
                i = i + 1;
            }
            assert(bs.take(bs.len() as int) =~= bs);
        } else {
            assert(tool_uses_named(bs) =~= Seq::<(Seq<char>, Seq<char>)>::empty());
        }
        k = k + 1;
    }
    assert(records@.take(records.len() as int) =~= records@);
    out
}

fn collect_ids(records: &[Kept], uses: bool) -> (out: Vec<String>)
    ensures
        string_views(out@) == file_ids(records@, uses),
{
    let mut out: Vec<String> = Vec::new();
    let mut k: usize = 0;
    while k < records.len()
        invariant
            k <= records.len(),
            string_views(out@) == file_ids(records@.take(k as int), uses),
        decreases records.len() - k,
    {
        let ghost base = string_views(out@);
        assert(records@.take(k as int + 1).drop_last() =~= records@.take(k as int));
        let bs_opt = record_blocks(&records[k].rec);
        let ghost bs: Seq<Block> = blocks_or_empty(records@[k as int].rec);
        if let Some(bs_v) = bs_opt {
            let mut i: usize = 0;
            while i < bs_v.len()
                invariant
                    i <= bs_v@.len(),
                    bs == bs_v@,
                    string_views(out@) == base + block_ids(bs.take(i as int), uses),
                decreases bs_v.len() - i,
            {
                assert(bs.take(i as int + 1).drop_last() =~= bs.take(i as int));
                let ghost before = out@;
                match &bs_v[i] {
                    Block::ToolUse { id: Some(id), .. } => {
                        if uses {
                            out.push(id.clone());
                            assert(string_views(out@) =~= string_views(before).push(id@));
                        }
                    },
                    Block::ToolResult { tool_use_id: Some(id), .. } => {
                        if !uses {
                            out.push(id.clone());
                            assert(string_views(out@) =~= string_views(before).push(id@));
                        }
                    },
                    _ => {},
                }
                i = i + 1;
            }
            assert(bs.take(bs.len() as int) =~= bs);
        } else {
            assert(block_ids(bs, uses) =~= Seq::<Seq<char>>::empty());
        }
        k = k + 1;
    }
    assert(records@.take(records.len() as int) =~= records@);
    out
}

/// The pairing id lists of a file: every `tool_use` id, and every `tool_result`'s
/// `tool_use_id`, joined by membership (not contiguity).
pub fn tool_pair_ids(records: &[Kept]) -> (r: (Vec<String>, Vec<String>))
    ensures
        string_views(r.0@) == file_ids(records@, true),
        string_views(r.1@) == file_ids(records@, false),
{
    (collect_ids(records, true), collect_ids(records, false))
}

fn contains_string(v: &Vec<String>, s: &str) -> (b: bool)
    ensures
        b == string_views(v@).contains(s@),
{
    let mut i: usize = 0;
    while i < v.len()
        invariant
            i <= v.len(),
            forall|k: int| 0 <= k < i ==> v@[k]@ != s@,
        decreases v.len() - i,
    {
        if str_eq(v[i].as_str(), s) {
            assert(string_views(v@)[i as int] == s@);
            return true;
        }
        i = i + 1;
    }
    assert(!string_views(v@).contains(s@)) by {
        if string_views(v@).contains(s@) {
            let k = choose|k: int| 0 <= k < string_views(v@).len() && string_views(v@)[k] == s@;
            assert(v@[k]@ == s@);
        }
    }
    false
}

/// The pairing a tool hit gets: a use-side view is paired when its id has a result
/// (else pending); a result-side view is paired when its id has a use (else orphan);
/// any other hit, or one with no id, has none.
pub open spec fn spec_pairing(class: Option<Class>, id: Option<Seq<char>>, uses: Seq<Seq<char>>, results: Seq<Seq<char>>) -> Option<Pairing> {
    match id {
        None => None,
        Some(i) => match class {
            Some(Class::AgentToolUse) | Some(Class::CommSent) | Some(Class::CommSignal) =>
                Some(if results.contains(i) { Pairing::Paired } else { Pairing::PendingNoResult }),
            Some(Class::AgentToolResult) | Some(Class::CommInbox) =>
                Some(if uses.contains(i) { Pairing::Paired } else { Pairing::OrphanResult }),
            _ => None,
        },
    }
}

/// Resolve a tool hit's pairing against the file-level id lists. A hit with no
/// `tool_use_id` is left as it was.
pub fn set_pairing(h: &mut Hit, use_ids: &Vec<String>, result_ids: &Vec<String>)
    ensures
        old(h).tool_use_id is None ==> *final(h) == *old(h),
        old(h).tool_use_id is Some ==> *final(h) == (Hit { pair: spec_pairing(old(h).class, opt_view(old(h).tool_use_id),
            string_views(use_ids@), string_views(result_ids@)), ..*old(h) }),
{
    let pair = match &h.tool_use_id {
        None => return,
        Some(id) => match h.class {
            Some(Class::AgentToolUse) | Some(Class::CommSent) | Some(Class::CommSignal) => {
                Some(if contains_string(result_ids, id.as_str()) { Pairing::Paired } else { Pairing::PendingNoResult })
            },
            Some(Class::AgentToolResult) | Some(Class::CommInbox) => {
                Some(if contains_string(use_ids, id.as_str()) { Pairing::Paired } else { Pairing::OrphanResult })
            },
            _ => None,
        },
    };
    h.pair = pair;
}

/// `h` stamped with a record's address.
pub open spec fn with_address(h: Hit, line: usize, uuid: Option<String>, from_sidecar: bool) -> Hit {
    Hit { line: line, uuid: uuid, from_sidecar: from_sidecar, ..h }
}

/// Stamp the source record's address onto each hit it produced (those from position
/// `from` on): its physical line, its uuid, and whether it came from the elicitation
/// sidecar. Nothing else of a hit changes.
pub fn backfill_address(hits: &mut Vec<Hit>, from: usize, kept: &Kept)
    ensures
        final(hits)@.len() == old(hits)@.len(),
        forall|k: int| 0 <= k < from && k < old(hits)@.len() ==> #[trigger] final(hits)@[k] == old(hits)@[k],
        forall|k: int| from <= k < old(hits)@.len() ==>
            #[trigger] final(hits)@[k] == with_address(old(hits)@[k], kept.line_no, kept.rec.uuid, kept.from_sidecar),
{
    let ghost orig = hits@;
    let mut i = from;
    while i < hits.len()
        invariant
            from <= i,
            hits@.len() == orig.len(),
            forall|k: int| 0 <= k < from && k < orig.len() ==> #[trigger] hits@[k] == orig[k],
            forall|k: int| i <= k < orig.len() ==> #[trigger] hits@[k] == orig[k],
            forall|k: int| from <= k < i && k < orig.len() ==>
                #[trigger] hits@[k] == with_address(orig[k], kept.line_no, kept.rec.uuid, kept.from_sidecar),
        decreases hits.len() - i,
    {
        let mut h = hits.remove(i);
        h.line = kept.line_no;
        h.uuid = clone_opt(&kept.rec.uuid);
        h.from_sidecar = kept.from_sidecar;
        hits.insert(i, h);
        i = i + 1;
    }
}

/// What the record model resolved for one record, beyond its fields: its label set
/// (richest first), its record-level texts, the user-facing dual's reconstructed text, the
/// content and kind of an MCP elicitation marker that has no `tool_use` block, its
/// communication direction (owner already aliased) and resolved persisted output.
pub struct RecordView {
    pub labels: Vec<Class>,
    pub texts: RecordTexts,
    pub user_dual_text: Option<String>,
    pub elicitation: Option<(String, Option<String>)>,
    pub direction: Option<(String, String)>,
    pub persisted: Option<String>,
}

/// The user-facing dual a record emits: the answer when carried and selected, else the
/// rejection when carried and selected.
pub open spec fn spec_user_dual(labels: Seq<Class>, f: LabelFilter) -> Option<Class> {
    if has_sel(labels, f, Class::UserAnswer) {
        Some(Class::UserAnswer)
    } else if has_sel(labels, f, Class::UserRejection) {
        Some(Class::UserRejection)
    } else {
        None
    }
}

/// The block context a record view yields.
pub open spec fn spec_block_ctx<'a>(rec: Record, v: &'a RecordView, f: LabelFilter) -> BlockCtx<'a> {
    BlockCtx {
        is_assistant: opt_view(rec.record_type) == Some("assistant"@),
        labels: &v.labels,
        user_dual: spec_user_dual(v.labels@, f),
        direction: &v.direction,
        persisted: &v.persisted,
    }
}

/// Every emission of a record, in order: its record-level text unit, the user-facing
/// dual, a tool-less elicitation marker, then its blocks. A record with no label emits
/// nothing.
pub open spec fn record_emissions(rec: Record, v: RecordView, f: LabelFilter, names: Seq<(String, String)>) -> Seq<EmissionView> {
    let labels = v.labels@;
    if labels.len() == 0 {
        Seq::empty()
    } else {
        let text_unit = match spec_record_text_emission(labels, f, v.texts) {
            Some(x) => seq![(x.0, x.1, None, if spec_is_comm(x.0) { dir_view(v.direction) } else { None }, None)],
            None => Seq::empty(),
        };
        let dual = match spec_user_dual(labels, f) {
            Some(c) => match v.user_dual_text {
                Some(t) => seq![(c, t@, None, None, None)],
                None => Seq::empty(),
            },
            None => Seq::empty(),
        };
        let marker = match v.elicitation {
            Some(e) => if has_sel(labels, f, Class::AgentToolUse) {
                seq![(Class::AgentToolUse, e.0@, opt_view(e.1), None, None)]
            } else {
                Seq::empty()
            },
            None => Seq::empty(),
        };
        text_unit + dual + marker + block_emissions(blocks_or_empty(rec), spec_block_ctx(rec, &v, f), f, names)
    }
}

/// The emissions of one record.
pub fn record_emission_list(rec: &Record, v: &RecordView, filter: &LabelFilter, names: &Vec<(String, String)>) -> (out: Vec<Emission>)
    ensures
        emission_views(out@) == record_emissions(*rec, *v, *filter, names@),
{
    let mut out: Vec<Emission> = Vec::new();
    if v.labels.len() == 0 {
        assert(emission_views(out@) =~= Seq::<EmissionView>::empty());
        return out;
    }
    if let Some((c, t)) = record_text_emission(&v.labels, filter, &v.texts) {
        let dir = if is_comm_class(c) { clone_dir(&v.direction) } else { None };
        out.push(Emission { class: c, text: t, tool_name: None, direction: dir, tool_use_id: None });
    }
    let user_dual = if has_and_selected(&v.labels, filter, Class::UserAnswer) {
        Some(Class::UserAnswer)
    } else if has_and_selected(&v.labels, filter, Class::UserRejection) {
        Some(Class::UserRejection)
    } else {
        None
    };
    if let Some(c) = user_dual {
        if let Some(t) = &v.user_dual_text {
            out.push(Emission { class: c, text: t.clone(), tool_name: None, direction: None, tool_use_id: None });
        }
    }
    if let Some((content, kind)) = &v.elicitation {
        if has_and_selected(&v.labels, filter, Class::AgentToolUse) {
            out.push(Emission {
                class: Class::AgentToolUse,
                text: content.clone(),
                tool_name: clone_opt(kind),
                direction: None,
                tool_use_id: None,
            });
        }
    }
    let ghost head = emission_views(out@);
    let cx = BlockCtx {
        is_assistant: crate::model::is_type(rec, "assistant"),
        labels: &v.labels,
        user_dual,
        direction: &v.direction,
        persisted: &v.persisted,
    };
    match record_blocks(rec) {
        Some(bs) => collect_block_hits(bs, &cx, filter, names, &mut out),
        None => {
            assert(block_emissions(Seq::<Block>::empty(), cx, *filter, names@) =~= Seq::<EmissionView>::empty());
        },
    }
    assert(cx == spec_block_ctx(*rec, v, *filter));
    out
}

/// The hit an emission yields when the matcher locates it, before any address is
/// stamped on it.
pub open spec fn hit_matches(h: Hit, e: EmissionView, m: Matcher, max: nat, labels: Seq<Class>, ts: Option<Seq<char>>, model: Option<Seq<char>>) -> bool {
    &&& hit_content(h, e, m, max, labels, ts, model)
    &&& h.line == 0
    &&& h.uuid is None
    &&& !h.from_sidecar
}

/// The content a hit carries from its emission: class, labels, the match-centered
/// excerpt and its clipping flag, tool name, direction, tool-use id, timestamp, model;
/// no pairing yet.
pub open spec fn hit_content(h: Hit, e: EmissionView, m: Matcher, max: nat, labels: Seq<Class>, ts: Option<Seq<char>>, model: Option<Seq<char>>) -> bool {
    let loc = spec_locate(m, e.1);
    &&& loc is Some
    &&& h.class == Some(e.0)
    &&& h.labels@ == labels
    &&& h.excerpt@ == spec_match_excerpt(e.1, loc->0, max).0
    &&& h.truncated == spec_match_excerpt(e.1, loc->0, max).1
    &&& opt_view(h.tool_name) == e.2
    &&& dir_view(h.direction) == e.3
    &&& opt_view(h.tool_use_id) == e.4
    &&& opt_view(h.timestamp_utc) == ts
    &&& opt_view(h.model) == model
    &&& h.pair is None
}

/// The emissions that match, in order.
pub open spec fn matching(es: Seq<EmissionView>, m: Matcher) -> Seq<EmissionView>
    decreases es.len(),
{
    if es.len() == 0 {
        Seq::empty()
    } else if spec_locate(m, es.last().1) is Some {
        matching(es.drop_last(), m).push(es.last())
    } else {
        matching(es.drop_last(), m)
    }
}

fn view_ts(o: &Option<String>) -> (r: Option<String>)
    ensures
        opt_view(r) == opt_view(*o),
{
    clone_opt(o)
}

/// Turn a record's emissions into hits: each emission the matcher locates becomes a hit
/// with the excerpt centered on the match.
pub fn emit_hits(es: &Vec<Emission>, matcher: &Matcher, excerpt_max: usize, labels: &Vec<Class>,
    ts: &Option<String>, model: &Option<String>, hits: &mut Vec<Hit>)
    ensures
        final(hits)@.len() == old(hits)@.len() + matching(emission_views(es@), *matcher).len(),
        forall|k: int| 0 <= k < old(hits)@.len() ==> #[trigger] final(hits)@[k] == old(hits)@[k],
        forall|k: int| 0 <= k < matching(emission_views(es@), *matcher).len() ==>
            hit_matches(#[trigger] final(hits)@[old(hits)@.len() + k], matching(emission_views(es@), *matcher)[k],
                *matcher, excerpt_max as nat, labels@, opt_view(*ts), opt_view(*model)),
{
    let ghost base = hits@;
    let ghost ev = emission_views(es@);
    let mut i: usize = 0;
    while i < es.len()
        invariant
            i <= es.len(),
            ev == emission_views(es@),
            hits@.len() == base.len() + matching(ev.take(i as int), *matcher).len(),
            forall|k: int| 0 <= k < base.len() ==> #[trigger] hits@[k] == base[k],
            forall|k: int| 0 <= k < matching(ev.take(i as int), *matcher).len() ==>
                hit_matches(#[trigger] hits@[base.len() + k], matching(ev.take(i as int), *matcher)[k],
                    *matcher, excerpt_max as nat, labels@, opt_view(*ts), opt_view(*model)),
        decreases es.len() - i,
    {
        assert(ev.take(i as int + 1).drop_last() =~= ev.take(i as int));
        assert(ev.take(i as int + 1).last() == emission_view(es@[i as int]));
        let e = &es[i];
        match matcher.locate(e.text.as_str()) {
            Some(span) => {
                let (excerpt, truncated) = match_excerpt(e.text.as_str(), span, excerpt_max);
                let h = Hit {
                    class: Some(e.class),
                    labels: labels.clone(),
                    excerpt,
                    timestamp_utc: view_ts(ts),
                    tool_name: clone_opt(&e.tool_name),
                    model: clone_opt(model),
                    attachment_type: None,
                    version: None,
                    is_error: None,
                    direction: clone_dir(&e.direction),
                    tool_use_id: clone_opt(&e.tool_use_id),
                    pair: None,
                    line: 0,
                    uuid: None,
                    raw: None,
                    image_ids: Vec::new(),
                    from_sidecar: false,
                    queue_operation: None,
                    queue_reason: None,
                    delivery: None,
                    resume_paired: None,
                    truncated,
                };
                let ghost before = hits@;
                hits.push(h);
                assert(matching(ev.take(i as int + 1), *matcher) == matching(ev.take(i as int), *matcher).push(ev[i as int]));
            },
            None => {},
        }
        i = i + 1;
    }
    assert(ev.take(es.len() as int) =~= ev);
}

/// The model a record's message names.
pub open spec fn message_model(r: Record) -> Option<Seq<char>> {
    match r.message {
        Some(m) => opt_view(m.model),
        None => None,
    }
}

fn message_model_exec(r: &Record) -> (m: Option<String>)
    ensures
        opt_view(m) == message_model(*r),
{
    match &r.message {
        Some(m) => match &m.model {
            Some(s) => Some(s.clone()),
            None => None,
        },
        None => None,
    }
}

/// Collect one record's hits: each of its emissions (see [`record_emissions`]) that the
/// matcher locates becomes a hit carrying the record's labels, timestamp and model; the
/// address is stamped by the caller.
pub fn collect_record_hits(rec: &Record, v: &RecordView, filter: &LabelFilter, matcher: &Matcher, excerpt_max: usize,
    names: &Vec<(String, String)>, hits: &mut Vec<Hit>)
    ensures
        final(hits)@.len() == old(hits)@.len() + matching(record_emissions(*rec, *v, *filter, names@), *matcher).len(),
        forall|k: int| 0 <= k < old(hits)@.len() ==> #[trigger] final(hits)@[k] == old(hits)@[k],
        forall|k: int| 0 <= k < matching(record_emissions(*rec, *v, *filter, names@), *matcher).len() ==>
            hit_matches(#[trigger] final(hits)@[old(hits)@.len() + k], matching(record_emissions(*rec, *v, *filter, names@), *matcher)[k],
                *matcher, excerpt_max as nat, v.labels@, opt_view(rec.timestamp), message_model(*rec)),
        forall|k: int| old(hits)@.len() <= k < final(hits)@.len() ==> ((#[trigger] final(hits)@[k]).class matches Some(c)
            && v.labels@.contains(c) && spec_selected(*filter, spec_path(c))),
{
    let es = record_emission_list(rec, v, filter, names);
    let model = message_model_exec(rec);
    let ghost n0 = hits@.len();
    emit_hits(&es, matcher, excerpt_max, &v.labels, &rec.timestamp, &model, hits);
    proof {
        let all = record_emissions(*rec, *v, *filter, names@);
        let ms = matching(all, *matcher);
        lemma_record_emissions_selected(*rec, *v, *filter, names@);
        lemma_matching_from(all, *matcher);
        assert forall|k: int| n0 <= k < hits@.len() implies ((#[trigger] hits@[k]).class matches Some(c)
            && v.labels@.contains(c) && spec_selected(*filter, spec_path(c))) by {
            let q = k - n0;
            assert(hit_matches(hits@[n0 + q], ms[q], *matcher, excerpt_max as nat, v.labels@, opt_view(rec.timestamp), message_model(*rec)));
            assert(all.contains(ms[q]));
            let j = choose|j: int| 0 <= j < all.len() && all[j] == ms[q];
            assert(has_sel(v.labels@, *filter, all[j].0));
        }
    }
}


/// The record-level text unit is of a class the filter selects and the record carries.
pub proof fn lemma_record_text_selected(labels: Seq<Class>, f: LabelFilter, t: crate::search::record_text::RecordTexts)
    ensures
        spec_record_text_emission(labels, f, t) matches Some(x) ==> labels.contains(x.0) && spec_selected(f, spec_path(x.0)),
    decreases labels.len(),
{
    if labels.len() > 0 {
        lemma_record_text_selected(labels.drop_first(), f, t);
        if let Some(x) = spec_record_text_emission(labels.drop_first(), f, t) {
            let k = choose|k: int| 0 <= k < labels.drop_first().len() && labels.drop_first()[k] == x.0;
            assert(labels[k + 1] == x.0);
        }
        assert(labels[0] == labels[0]);
    }
}

/// Every block emission is of a class the filter selects and the record carries.
pub proof fn lemma_block_emissions_selected(bs: Seq<Block>, cx: BlockCtx<'_>, f: LabelFilter, names: Seq<(String, String)>)
    ensures
        forall|k: int| 0 <= k < block_emissions(bs, cx, f, names).len()
            ==> has_sel((*cx.labels)@, f, (#[trigger] block_emissions(bs, cx, f, names)[k]).0),
    decreases bs.len(),
{
    if bs.len() > 0 {
        lemma_block_emissions_selected(bs.drop_last(), cx, f, names);
        lemma_block_emission_selected(bs.last(), cx, f, names);
        let rest = block_emissions(bs.drop_last(), cx, f, names);
        let all = block_emissions(bs, cx, f, names);
        assert forall|k: int| 0 <= k < all.len() implies has_sel((*cx.labels)@, f, (#[trigger] all[k]).0) by {
            if k < rest.len() {
                assert(all[k] == rest[k]);
            }
        }
    }
}

proof fn lemma_block_emission_selected(b: Block, cx: BlockCtx<'_>, f: LabelFilter, names: Seq<(String, String)>)
    ensures
        block_emission(b, cx, f, names) matches Some(e) ==> has_sel((*cx.labels)@, f, e.0),
{
    match b {
        Block::ToolUse { id, name, input } => {
            let comm = spec_tool_use_comm_class(opt_view(name), input);
            if comm is Some && has_sel((*cx.labels)@, f, comm->0) {
            }
        },
        _ => {},
    }
}

/// Every emission of a record is of a class the filter selects and the record carries.
pub proof fn lemma_record_emissions_selected(rec: Record, v: RecordView, f: LabelFilter, names: Seq<(String, String)>)
    ensures
        forall|k: int| 0 <= k < record_emissions(rec, v, f, names).len()
            ==> has_sel(v.labels@, f, (#[trigger] record_emissions(rec, v, f, names)[k]).0),
{
    let labels = v.labels@;
    if labels.len() > 0 {
        lemma_record_text_selected(labels, f, v.texts);
        lemma_block_emissions_selected(blocks_or_empty(rec), spec_block_ctx(rec, &v, f), f, names);
        let text_unit = match spec_record_text_emission(labels, f, v.texts) {
            Some(x) => seq![(x.0, x.1, None, if spec_is_comm(x.0) { dir_view(v.direction) } else { None }, None)],
            None => Seq::empty(),
        };
        let dual = match spec_user_dual(labels, f) {
            Some(c) => match v.user_dual_text {
                Some(t) => seq![(c, t@, None, None, None)],
                None => Seq::empty(),
            },
            None => Seq::empty(),
        };
        let marker = match v.elicitation {
            Some(e) => if has_sel(labels, f, Class::AgentToolUse) {
                seq![(Class::AgentToolUse, e.0@, opt_view(e.1), None, None)]
            } else {
                Seq::empty()
            },
            None => Seq::empty(),
        };
        let be = block_emissions(blocks_or_empty(rec), spec_block_ctx(rec, &v, f), f, names);
        let all = text_unit + dual + marker + be;
        assert(all == record_emissions(rec, v, f, names));
        assert forall|k: int| 0 <= k < all.len() implies has_sel(labels, f, (#[trigger] all[k]).0) by {
            if k < text_unit.len() {
            } else if k < text_unit.len() + dual.len() {
            } else if k < text_unit.len() + dual.len() + marker.len() {
            } else {
                assert(all[k] == be[k - text_unit.len() - dual.len() - marker.len()]);
            }
        }
    }
}

/// What `matching` keeps is drawn from its input.
pub proof fn lemma_matching_from(es: Seq<EmissionView>, m: Matcher)
    ensures
        forall|k: int| 0 <= k < matching(es, m).len() ==> es.contains(#[trigger] matching(es, m)[k]),
    decreases es.len(),
{
    if es.len() > 0 {
        lemma_matching_from(es.drop_last(), m);
        let r = matching(es.drop_last(), m);
        assert forall|k: int| 0 <= k < r.len() implies es.contains(#[trigger] r[k]) by {
            let j = choose|j: int| 0 <= j < es.drop_last().len() && es.drop_last()[j] == r[k];
            assert(es[j] == r[k]);
        }
        assert(es[es.len() - 1] == es.last());
    }
}

/// The one unit an addressed record that no leaf models renders: its raw text under an
/// empty label, the excerpt centered on the match. `None` when the record carries no text
/// or the pattern does not occur in it (the address stays a miss).
pub fn unlabeled_hit(rec: &Record, matcher: &Matcher, excerpt_max: usize) -> (r: Option<Hit>)
    ensures
        match spec_raw_text(*rec) {
            None => r is None,
            Some(text) => match spec_locate(*matcher, text) {
                None => r is None,
                Some(loc) => r matches Some(h) && {
                    &&& h.class is None
                    &&& h.labels@.len() == 0
                    &&& h.excerpt@ == spec_match_excerpt(text, loc, excerpt_max as nat).0
                    &&& h.truncated == spec_match_excerpt(text, loc, excerpt_max as nat).1
                    &&& opt_view(h.timestamp_utc) == opt_view(rec.timestamp)
                    &&& opt_view(h.version) == opt_view(rec.version)
                    &&& h.tool_name is None && h.model is None && h.tool_use_id is None && h.direction is None
                    &&& h.pair is None && h.is_error is None
                    &&& h.line == 0 && h.uuid is None && !h.from_sidecar && h.image_ids@.len() == 0
                },
            },
        },
{
    let text = match record_raw_text(rec) {
        Some(t) => t,
        None => return None,
    };
    let span = match matcher.locate(text.as_str()) {
        Some(sp) => sp,
        None => return None,
    };
    let (excerpt, truncated) = match_excerpt(text.as_str(), span, excerpt_max);
    Some(Hit {
        class: None,
        labels: Vec::new(),
        excerpt,
        timestamp_utc: clone_opt(&rec.timestamp),
        tool_name: None,
        model: None,
        attachment_type: None,
        version: clone_opt(&rec.version),
        is_error: None,
        direction: None,
        tool_use_id: None,
        pair: None,
        line: 0,
        uuid: None,
        raw: None,
        image_ids: Vec::new(),
        from_sidecar: false,
        queue_operation: None,
        queue_reason: None,
        delivery: None,
        resume_paired: None,
        truncated,
    })
}

} // verus!
