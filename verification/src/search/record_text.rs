//! Record-text resolution for hits: the communication view of a tool call, the owner
//! aliased as `self`, the searchable rendering of a tool call, and the richest selected
//! record-level text.

use vstd::prelude::*;
use crate::chars::{push_char, str_eq};
use crate::labels::{Class, is_record_text_class, spec_is_record_text, spec_path};
use crate::model::{ToolInput, opt_view};
use crate::search::filter::{LabelFilter, spec_selected};

verus! {

/// `t` is one of the two non-signal `SendMessage` types.
pub open spec fn plain_message_type(t: Seq<char>) -> bool {
    t == "message"@ || t == "direct"@
}

fn is_plain_message_type(t: &str) -> (b: bool)
    ensures
        b == plain_message_type(t@),
{
    str_eq(t, "message") || str_eq(t, "direct")
}

/// A `SendMessage` whose top-level (else nested `message`) `type` is present and is not
/// `message`/`direct` is a control signal.
pub open spec fn spec_is_signal(input: Option<ToolInput>) -> bool {
    match input {
        None => false,
        Some(i) => match i.type_field {
            Some(t) => !plain_message_type(t@),
            None => match i.message_type {
                Some(t) => !plain_message_type(t@),
                None => false,
            },
        },
    }
}

/// Is this `SendMessage` call a control signal?
pub fn send_message_is_signal(input: Option<&ToolInput>) -> (b: bool)
    ensures
        b == spec_is_signal(match input { Some(i) => Some(*i), None => None }),
{
    let input = match input {
        None => return false,
        Some(i) => i,
    };
    if let Some(t) = &input.type_field {
        return !is_plain_message_type(t.as_str());
    }
    if let Some(t) = &input.message_type {
        return !is_plain_message_type(t.as_str());
    }
    false
}

/// The spawn tools: `Task`, `Agent`, `Workflow`.
pub open spec fn spec_is_spawn_tool(name: Seq<char>) -> bool {
    name == "Task"@ || name == "Agent"@ || name == "Workflow"@
}

/// Is `name` a subagent-spawning tool?
pub fn is_spawn_tool_name(name: &str) -> (b: bool)
    ensures
        b == spec_is_spawn_tool(name@),
{
    str_eq(name, "Task") || str_eq(name, "Agent") || str_eq(name, "Workflow")
}

/// The communication class a `tool_use` block carries: `SendMessage` → sent or signal;
/// a spawn → sent; any other tool (or no name) → none.
pub open spec fn spec_tool_use_comm_class(name: Option<Seq<char>>, input: Option<ToolInput>) -> Option<Class> {
    match name {
        None => None,
        Some(n) => if n == "SendMessage"@ {
            Some(if spec_is_signal(input) { Class::CommSignal } else { Class::CommSent })
        } else if spec_is_spawn_tool(n) {
            Some(Class::CommSent)
        } else {
            None
        },
    }
}

/// The communication class of a `tool_use` block, if any.
pub fn tool_use_comm_class(name: Option<&str>, input: Option<&ToolInput>) -> (c: Option<Class>)
    ensures
        c == spec_tool_use_comm_class(
            match name { Some(n) => Some(n@), None => None },
            match input { Some(i) => Some(*i), None => None },
        ),
{
    let n = match name {
        None => return None,
        Some(n) => n,
    };
    if str_eq(n, "SendMessage") {
        Some(if send_message_is_signal(input) { Class::CommSignal } else { Class::CommSent })
    } else if is_spawn_tool_name(n) {
        Some(Class::CommSent)
    } else {
        None
    }
}

/// `s`, or `self` when it is the owner's id.
pub open spec fn aliased(s: Seq<char>, owner: Seq<char>) -> Seq<char> {
    if s == owner { "self"@ } else { s }
}

/// Render the transcript owner's own id as `self` on either side of a direction; a peer
/// id is kept verbatim. No-op without an owner.
pub fn alias_self(dir: Option<(String, String)>, owner_id: Option<&str>) -> (r: Option<(String, String)>)
    ensures
        owner_id is None ==> r == dir,
        owner_id matches Some(o) ==> match dir {
            None => r is None,
            Some(d) => r matches Some(x) && x.0@ == aliased(d.0@, o@) && x.1@ == aliased(d.1@, o@),
        },
{
    let owner = match owner_id {
        None => return dir,
        Some(o) => o,
    };
    match dir {
        None => None,
        Some((from, to)) => {
            let f = if str_eq(from.as_str(), owner) { "self".to_string() } else { from };
            let t = if str_eq(to.as_str(), owner) { "self".to_string() } else { to };
            Some((f, t))
        },
    }
}

/// The searchable text of a `tool_use` block: its name, then a space and its input's
/// JSON when there is an input.
pub open spec fn spec_render_tool_use(name: Option<Seq<char>>, input: Option<ToolInput>) -> Seq<char> {
    (match name { Some(n) => n, None => Seq::empty() })
        + (match input { Some(i) => seq![' '] + i.json@, None => Seq::empty() })
}

/// Render a `tool_use` block to searchable text (`name {json-input}`).
pub fn render_tool_use(name: Option<&str>, input: Option<&ToolInput>) -> (s: String)
    ensures
        s@ == spec_render_tool_use(
            match name { Some(n) => Some(n@), None => None },
            match input { Some(i) => Some(*i), None => None },
        ),
{
    let mut s = String::new();
    if let Some(n) = name {
        s.append(n);
    }
    if let Some(v) = input {
        push_char(&mut s, ' ');
        s.append(v.json.as_str());
    }
    s
}

/// The text sources a record-level text class can draw on, resolved by the record model:
/// the notification's automation label, the reconstructed user-facing text, and the raw
/// text.
#[derive(Debug, Clone)]
pub struct RecordTexts {
    pub automation: Option<String>,
    pub reconstructed: Option<String>,
    pub raw: Option<String>,
}

/// A notification leaf.
pub open spec fn is_notification(c: Class) -> bool {
    c == Class::NotificationWorkflow || c == Class::NotificationMonitor || c == Class::NotificationSubagent
        || c == Class::NotificationBackgroundCommand || c == Class::NotificationTask
}

/// The text a record-level class renders from.
pub open spec fn class_text(c: Class, t: RecordTexts) -> Option<Seq<char>> {
    if is_notification(c) {
        opt_view(t.automation)
    } else if c == Class::UserMessage || c == Class::CommInbox {
        opt_view(t.reconstructed)
    } else if c == Class::CommSignal {
        if t.reconstructed is Some { opt_view(t.reconstructed) } else { opt_view(t.raw) }
    } else {
        opt_view(t.raw)
    }
}

/// The first record-level text class among `labels` (richest first) that is selected and
/// has text, with that text.
pub open spec fn spec_record_text_emission(labels: Seq<Class>, f: LabelFilter, t: RecordTexts) -> Option<(Class, Seq<char>)>
    decreases labels.len(),
{
    if labels.len() == 0 {
        None
    } else {
        let c = labels[0];
        if spec_is_record_text(c) && spec_selected(f, spec_path(c)) && class_text(c, t) is Some {
            Some((c, class_text(c, t)->0))
        } else {
            spec_record_text_emission(labels.drop_first(), f, t)
        }
    }
}

fn text_for(c: Class, t: &RecordTexts) -> (r: Option<String>)
    ensures
        opt_view(r) == class_text(c, *t),
{
    match c {
        Class::NotificationWorkflow | Class::NotificationMonitor | Class::NotificationSubagent
        | Class::NotificationBackgroundCommand | Class::NotificationTask => t.automation.clone(),
        Class::UserMessage | Class::CommInbox => t.reconstructed.clone(),
        Class::CommSignal => if t.reconstructed.is_some() { t.reconstructed.clone() } else { t.raw.clone() },
        _ => t.raw.clone(),
    }
}

/// The richest selected record-level text class and its display text.
pub fn record_text_emission(labels: &Vec<Class>, filter: &LabelFilter, texts: &RecordTexts) -> (r: Option<(Class, String)>)
    ensures
        match r {
            None => spec_record_text_emission(labels@, *filter, *texts) is None,
            Some(x) => spec_record_text_emission(labels@, *filter, *texts) == Some((x.0, x.1@)),
        },
{
    let mut i: usize = 0;
    assert(labels@.skip(0) =~= labels@);
    while i < labels.len()
        invariant
            i <= labels.len(),
            spec_record_text_emission(labels@, *filter, *texts)
                == spec_record_text_emission(labels@.skip(i as int), *filter, *texts),
        decreases labels.len() - i,
    {
        assert(labels@.skip(i as int).drop_first() =~= labels@.skip(i as int + 1));
        assert(labels@.skip(i as int)[0] == labels@[i as int]);
        let c = labels[i];
        if is_record_text_class(c) && filter.selected(c.path()) {
            if let Some(t) = text_for(c, texts) {
                return Some((c, t));
            }
        }
        i = i + 1;
    }
    assert(labels@.skip(labels.len() as int) =~= Seq::<Class>::empty());
    None
}

} // verus!
