//! The transcript record model: the fields of a coding-agent transcript jsonl line that the
//! library's logic reads, held as plain values (the JSON decoding happens at the edge).

use vstd::prelude::*;
use crate::chars::{from_chars, push_char, str_eq, to_chars};
use crate::text::{normalize_line, normalized};
use crate::range::{trim_chars, trimmed};

verus! {

/// A content block of a message.
#[derive(Debug, Clone)]
pub enum Block {
    Text { text: String },
    /// `tag` is the kind the block's signature names (`thinking`, `narration`, …), when it
    /// carries one.
    Thinking { thinking: String, tag: Option<String> },
    /// Opaque reasoning: no readable text.
    RedactedThinking,
    ToolUse { id: Option<String>, name: Option<String>, input: Option<ToolInput> },
    /// `content` is the result's flattened text.
    ToolResult { tool_use_id: Option<String>, content: Option<String>, is_error: Option<bool> },
    /// Any other block (image, document, …).
    Other,
}

/// What the logic reads of a `tool_use` block's `input` object: its compact JSON
/// serialization (the searchable text), its top-level `type` string, the `type` of a
/// nested `message` object, a string `command`, the string `description`,
/// `subagent_type` and `name` of a spawning call, and whether `command` is a removal the
/// harness hoists for human approval.
#[derive(Debug, Clone)]
pub struct ToolInput {
    pub json: String,
    pub type_field: Option<String>,
    pub message_type: Option<String>,
    pub command: Option<String>,
    pub description: Option<String>,
    pub subagent_type: Option<String>,
    pub name: Option<String>,
    pub dangerous_command: bool,
}

/// A message body: a bare string or a list of blocks.
#[derive(Debug, Clone)]
pub enum Content {
    Text(String),
    Blocks(Vec<Block>),
}

/// `message.usage` token counters.
#[derive(Debug, Clone, Copy)]
pub struct Usage {
    pub input_tokens: Option<u64>,
    pub output_tokens: Option<u64>,
    pub cache_read_input_tokens: Option<u64>,
    pub cache_creation_input_tokens: Option<u64>,
}

/// The `message` object of a user/assistant record.
#[derive(Debug, Clone)]
pub struct Message {
    pub role: Option<String>,
    pub content: Option<Content>,
    pub model: Option<String>,
    pub id: Option<String>,
    pub usage: Option<Usage>,
}

/// One transcript line.
#[derive(Debug, Clone)]
pub struct Record {
    /// Top-level `type`.
    pub record_type: Option<String>,
    pub subtype: Option<String>,
    pub uuid: Option<String>,
    pub parent_uuid: Option<String>,
    pub timestamp: Option<String>,
    pub is_meta: Option<bool>,
    pub is_compact_summary: Option<bool>,
    pub cwd: Option<String>,
    pub version: Option<String>,
    pub git_branch: Option<String>,
    pub session_id: Option<String>,
    pub message: Option<Message>,
    /// A message-less system record's top-level string `content`.
    pub content: Option<String>,
    /// `compactMetadata` as `(key, rendered value)` pairs in object order (a string value
    /// verbatim, any other value as its compact JSON).
    pub compact_metadata: Option<Vec<(String, String)>>,
    /// The joined text of a hook-injected `additionalContext` attachment.
    pub hook_context: Option<String>,
}

pub open spec fn opt_view(o: Option<String>) -> Option<Seq<char>> {
    match o {
        Some(s) => Some(s@),
        None => None,
    }
}

/// `parts` joined with `sep` between consecutive parts.
pub open spec fn join(parts: Seq<Seq<char>>, sep: Seq<char>) -> Seq<char>
    decreases parts.len(),
{
    if parts.len() == 0 {
        Seq::empty()
    } else if parts.len() == 1 {
        parts[0]
    } else {
        join(parts.drop_last(), sep) + sep + parts.last()
    }
}

/// The texts of the `text` blocks, in order.
pub open spec fn text_parts(bs: Seq<Block>) -> Seq<Seq<char>>
    decreases bs.len(),
{
    if bs.len() == 0 {
        Seq::empty()
    } else {
        let rest = text_parts(bs.drop_last());
        match bs.last() {
            Block::Text { text } => rest.push(text@),
            _ => rest,
        }
    }
}

/// The blocks of a record's message, when its content is a block list.
pub open spec fn spec_blocks(rec: Record) -> Option<Seq<Block>> {
    match rec.message {
        Some(m) => match m.content {
            Some(Content::Blocks(bs)) => Some(bs@),
            _ => None,
        },
        None => None,
    }
}

/// A message's text: the bare string, or its text blocks joined with `\n` (`None`
/// when there is no text block).
pub open spec fn spec_message_text(m: Message) -> Option<Seq<char>> {
    match m.content {
        None => None,
        Some(Content::Text(s)) => Some(s@),
        Some(Content::Blocks(bs)) => if text_parts(bs@).len() == 0 {
            None
        } else {
            Some(join(text_parts(bs@), seq!['\n']))
        },
    }
}

/// `key=value` for `key` when `compactMetadata` carries it.
pub open spec fn field_for(meta: Seq<(String, String)>, key: Seq<char>) -> Seq<Seq<char>> {
    match metadata_lookup(meta, key) {
        Some(v) => seq![key + seq!['='] + v],
        None => Seq::empty(),
    }
}

/// The present known `compactMetadata` fields, in fixed order.
pub open spec fn spec_metadata_fields(meta: Seq<(String, String)>) -> Seq<Seq<char>> {
    field_for(meta, "trigger"@) + field_for(meta, "preTokens"@) + field_for(meta, "postTokens"@)
        + field_for(meta, "durationMs"@)
}

/// The first value under `key`.
pub open spec fn metadata_lookup(meta: Seq<(String, String)>, key: Seq<char>) -> Option<Seq<char>>
    decreases meta.len(),
{
    if meta.len() == 0 {
        None
    } else if meta[0].0@ == key {
        Some(meta[0].1@)
    } else {
        metadata_lookup(meta.drop_first(), key)
    }
}

pub open spec fn spec_metadata_excerpt(meta: Seq<(String, String)>) -> Option<Seq<char>> {
    let fields = spec_metadata_fields(meta);
    if fields.len() == 0 {
        None
    } else {
        Some("[compaction boundary: "@ + join(fields, seq![' ']) + seq![']'])
    }
}

/// A message-less system record's text: its trimmed top-level `content` (when non-empty)
/// and the compaction-metadata excerpt, space-joined.
pub open spec fn spec_system_text(rec: Record) -> Option<Seq<char>> {
    let a = system_content_part(rec);
    let b = system_metadata_part(rec);
    if (a + b).len() == 0 {
        None
    } else {
        Some(join(a + b, seq![' ']))
    }
}

pub open spec fn system_content_part(rec: Record) -> Seq<Seq<char>> {
    match rec.content {
        Some(s) if trimmed(s@).len() > 0 => seq![trimmed(s@)],
        _ => Seq::empty(),
    }
}

pub open spec fn system_metadata_part(rec: Record) -> Seq<Seq<char>> {
    match rec.compact_metadata {
        Some(m) => match spec_metadata_excerpt(m@) {
            Some(e) => seq![e],
            None => Seq::empty(),
        },
        None => Seq::empty(),
    }
}

/// The raw textual body of a record: a hook context's text; else the message's text;
/// else (no message at all) the system-record text.
pub open spec fn spec_raw_text(rec: Record) -> Option<Seq<char>> {
    match rec.hook_context {
        Some(t) => Some(t@),
        None => match rec.message {
            Some(m) => spec_message_text(m),
            None => spec_system_text(rec),
        },
    }
}

proof fn lemma_join_push(parts: Seq<Seq<char>>, sep: Seq<char>, p: Seq<char>)
    requires
        parts.len() > 0,
    ensures
        join(parts.push(p), sep) == join(parts, sep) + sep + p,
{
    assert(parts.push(p).drop_last() =~= parts);
}

/// Join `parts` with `sep`.
pub fn join_strings(parts: &Vec<String>, sep: &str) -> (out: String)
    ensures
        out@ == join(parts@.map_values(|s: String| s@), sep@),
{
    let ghost views = parts@.map_values(|s: String| s@);
    let mut out = String::new();
    let mut i: usize = 0;
    while i < parts.len()
        invariant
            i <= parts.len(),
            views == parts@.map_values(|s: String| s@),
            out@ == join(views.take(i as int), sep@),
        decreases parts.len() - i,
    {
        if i > 0 {
            out.append(sep);
        }
        out.append(parts[i].as_str());
        proof {
            if i > 0 {
                lemma_join_push(views.take(i as int), sep@, views[i as int]);
            }
            assert(views.take(i + 1) =~= views.take(i as int).push(views[i as int]));
        }
        i = i + 1;
    }
    assert(views.take(parts.len() as int) =~= views);
    out
}

proof fn lemma_text_parts_push(bs: Seq<Block>, b: Block)
    ensures
        text_parts(bs.push(b)) == (match b {
            Block::Text { text } => text_parts(bs).push(text@),
            _ => text_parts(bs),
        }),
{
    assert(bs.push(b).drop_last() =~= bs);
}

/// The text blocks' texts, in order.
pub fn block_texts(bs: &Vec<Block>) -> (out: Vec<String>)
    ensures
        out@.map_values(|s: String| s@) == text_parts(bs@),
{
    let mut out: Vec<String> = Vec::new();
    let mut i: usize = 0;
    while i < bs.len()
        invariant
            i <= bs.len(),
            out@.map_values(|s: String| s@) == text_parts(bs@.take(i as int)),
        decreases bs.len() - i,
    {
        proof { lemma_text_parts_push(bs@.take(i as int), bs@[i as int]); }
        assert(bs@.take(i + 1) =~= bs@.take(i as int).push(bs@[i as int]));
        match &bs[i] {
            Block::Text { text } => {
                let ghost before = out@;
                out.push(text.clone());
                assert(out@.map_values(|s: String| s@) =~= before.map_values(|s: String| s@).push(text@));
            },
            _ => {},
        }
        i = i + 1;
    }
    assert(bs@.take(bs.len() as int) =~= bs@);
    out
}

/// A message's text (bare string, or text blocks joined with `\n`).
pub fn message_text(m: &Message) -> (r: Option<String>)
    ensures
        opt_view(r) == spec_message_text(*m),
{
    match &m.content {
        None => None,
        Some(Content::Text(s)) => Some(s.clone()),
        Some(Content::Blocks(bs)) => {
            let parts = block_texts(bs);
            proof { reveal_strlit("\n"); }
            assert("\n"@ =~= seq!['\n']);
            if parts.len() == 0 {
                None
            } else {
                Some(join_strings(&parts, "\n"))
            }
        },
    }
}

/// The first value stored under `key`.
pub fn metadata_get<'a>(meta: &'a Vec<(String, String)>, key: &str) -> (r: Option<&'a String>)
    ensures
        match r {
            Some(v) => metadata_lookup(meta@, key@) == Some(v@),
            None => metadata_lookup(meta@, key@) is None,
        },
{
    let mut i: usize = 0;
    assert(meta@.skip(0) =~= meta@);
    while i < meta.len()
        invariant
            i <= meta.len(),
            metadata_lookup(meta@, key@) == metadata_lookup(meta@.skip(i as int), key@),
        decreases meta.len() - i,
    {
        assert(meta@.skip(i as int).drop_first() =~= meta@.skip(i + 1));
        if str_eq(meta[i].0.as_str(), key) {
            return Some(&meta[i].1);
        }
        i = i + 1;
    }
    None
}

fn push_field(fields: &mut Vec<String>, meta: &Vec<(String, String)>, key: &str)
    ensures
        final(fields)@.map_values(|s: String| s@) == old(fields)@.map_values(|s: String| s@)
            + field_for(meta@, key@),
{
    match metadata_get(meta, key) {
        Some(v) => {
            let mut field = String::new();
            field.append(key);
            push_char(&mut field, '=');
            field.append(v.as_str());
            assert(field@ =~= key@ + seq!['='] + v@);
            let ghost before = fields@;
            fields.push(field);
            assert(fields@.map_values(|s: String| s@) =~= before.map_values(|s: String| s@)
                + field_for(meta@, key@));
        },
        None => {
            assert(fields@.map_values(|s: String| s@) =~= fields@.map_values(|s: String| s@)
                + field_for(meta@, key@));
        },
    }
}

/// `[compaction boundary: trigger=auto preTokens=1000 …]` for the present known keys, in
/// fixed order; `None` when none is present.
pub fn compact_metadata_excerpt(meta: &Vec<(String, String)>) -> (r: Option<String>)
    ensures
        opt_view(r) == spec_metadata_excerpt(meta@),
{
    let mut fields: Vec<String> = Vec::new();
    push_field(&mut fields, meta, "trigger");
    push_field(&mut fields, meta, "preTokens");
    push_field(&mut fields, meta, "postTokens");
    push_field(&mut fields, meta, "durationMs");
    assert(fields@.map_values(|s: String| s@) =~= spec_metadata_fields(meta@));
    if fields.len() == 0 {
        return None;
    }
    let mut out = String::new();
    out.append("[compaction boundary: ");
    proof { reveal_strlit(" "); }
    assert(" "@ =~= seq![' ']);
    let body = join_strings(&fields, " ");
    out.append(body.as_str());
    push_char(&mut out, ']');
    Some(out)
}

/// A message-less system record's text: trimmed `content` plus the compaction-metadata
/// excerpt, space-joined; `None` when neither is present.
pub fn system_record_text(rec: &Record) -> (r: Option<String>)
    ensures
        opt_view(r) == spec_system_text(*rec),
{
    let mut parts: Vec<String> = Vec::new();
    let ghost a = system_content_part(*rec);
    let ghost b = system_metadata_part(*rec);
    if let Some(c) = &rec.content {
        let cs = to_chars(c.as_str());
        let t = trim_chars(cs.as_slice());
        if t.len() > 0 {
            parts.push(from_chars(t.as_slice()));
        }
    }
    assert(parts@.map_values(|s: String| s@) =~= a);
    if let Some(m) = &rec.compact_metadata {
        if let Some(e) = compact_metadata_excerpt(m) {
            let ghost before = parts@;
            parts.push(e);
            assert(parts@.map_values(|s: String| s@) =~= before.map_values(|s: String| s@).push(e@));
        }
    }
    assert(parts@.map_values(|s: String| s@) =~= a + b);
    if parts.len() == 0 {
        None
    } else {
        proof { reveal_strlit(" "); }
        assert(" "@ =~= seq![' ']);
        Some(join_strings(&parts, " "))
    }
}

/// The raw textual body of a record for matching and rendering: a hook-injected context
/// text; else the message text (string, or text blocks joined with `\n`); else, for a
/// message-less system record, its content plus the compaction-metadata excerpt.
pub fn record_raw_text(rec: &Record) -> (r: Option<String>)
    ensures
        opt_view(r) == spec_raw_text(*rec),
{
    if let Some(t) = &rec.hook_context {
        return Some(t.clone());
    }
    match &rec.message {
        Some(m) => message_text(m),
        None => system_record_text(rec),
    }
}

/// Some block is a `tool_result`.
pub open spec fn has_tool_result(bs: Seq<Block>) -> bool {
    exists|i: int| 0 <= i < bs.len() && bs[i] is ToolResult
}

/// A non-empty one-line form of `t`.
pub open spec fn one_line(t: Seq<char>) -> Option<Seq<char>> {
    if normalized(t).len() > 0 { Some(normalized(t)) } else { None }
}

/// The text a person typed into a user turn, on one line: a non-meta `user` record whose
/// content is a string, or text blocks with no `tool_result` among them (a tool-result
/// carrier is machinery, not a turn). `None` for anything else or an empty text.
pub open spec fn spec_user_turn_text(rec: Record) -> Option<Seq<char>> {
    if opt_view(rec.record_type) == Some("user"@) && rec.is_meta != Some(true) {
        match rec.message {
            Some(m) => match m.content {
                Some(Content::Text(s)) => one_line(s@),
                Some(Content::Blocks(bs)) => if has_tool_result(bs@) || text_parts(bs@).len() == 0 {
                    None
                } else {
                    one_line(join(text_parts(bs@), seq!['\n']))
                },
                None => None,
            },
            None => None,
        }
    } else {
        None
    }
}

/// The visible text an `assistant` record says, on one line (its text blocks).
pub open spec fn spec_agent_text(rec: Record) -> Option<Seq<char>> {
    if opt_view(rec.record_type) == Some("assistant"@) {
        match rec.message {
            Some(m) => match m.content {
                Some(Content::Blocks(bs)) => if text_parts(bs@).len() == 0 {
                    None
                } else {
                    one_line(join(text_parts(bs@), seq!['\n']))
                },
                _ => None,
            },
            None => None,
        }
    } else {
        None
    }
}

/// Does the record's top-level `type` equal `t`?
pub fn is_type(rec: &Record, t: &str) -> (b: bool)
    ensures
        b == (opt_view(rec.record_type) == Some(t@)),
{
    match &rec.record_type {
        Some(x) => str_eq(x.as_str(), t),
        None => false,
    }
}

pub fn any_tool_result(bs: &Vec<Block>) -> (b: bool)
    ensures
        b == has_tool_result(bs@),
{
    let mut i: usize = 0;
    while i < bs.len()
        invariant
            i <= bs.len(),
            forall|j: int| 0 <= j < i ==> !(bs@[j] is ToolResult),
        decreases bs.len() - i,
    {
        if let Block::ToolResult { .. } = &bs[i] {
            return true;
        }
        i = i + 1;
    }
    false
}

fn one_line_exec(t: &str) -> (r: Option<String>)
    ensures
        opt_view(r) == one_line(t@),
{
    let n = normalize_line(t);
    if n.as_str().is_empty() { None } else { Some(n) }
}

fn joined_text_blocks(bs: &Vec<Block>) -> (r: Option<String>)
    ensures
        text_parts(bs@).len() == 0 ==> r is None,
        text_parts(bs@).len() > 0 ==> opt_view(r) == one_line(join(text_parts(bs@), seq!['\n'])),
{
    let parts = block_texts(bs);
    if parts.len() == 0 {
        return None;
    }
    proof { reveal_strlit("\n"); }
    assert("\n"@ =~= seq!['\n']);
    let j = join_strings(&parts, "\n");
    one_line_exec(j.as_str())
}

/// The one-line text of a person's user turn (see [`spec_user_turn_text`]).
pub fn user_turn_text(rec: &Record) -> (r: Option<String>)
    ensures
        opt_view(r) == spec_user_turn_text(*rec),
{
    if !is_type(rec, "user") || rec.is_meta == Some(true) {
        return None;
    }
    match &rec.message {
        Some(m) => match &m.content {
            Some(Content::Text(s)) => one_line_exec(s.as_str()),
            Some(Content::Blocks(bs)) => if any_tool_result(bs) {
                None
            } else {
                joined_text_blocks(bs)
            },
            None => None,
        },
        None => None,
    }
}

/// The one-line visible text of an assistant record (see [`spec_agent_text`]).
pub fn agent_text(rec: &Record) -> (r: Option<String>)
    ensures
        opt_view(r) == spec_agent_text(*rec),
{
    if !is_type(rec, "assistant") {
        return None;
    }
    match &rec.message {
        Some(m) => match &m.content {
            Some(Content::Blocks(bs)) => joined_text_blocks(bs),
            _ => None,
        },
        None => None,
    }
}

} // verus!
