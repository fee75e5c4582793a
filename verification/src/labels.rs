//! The `{role}.{class}.{sub}` label taxonomy every hit is classified under, the role
//! glyphs, the fixed `--siblings` cap policy and the small per-label predicates.

use vstd::prelude::*;

verus! {

/// Which side of the conversation a label sits on.
#[derive(Debug, Clone, Copy, PartialEq, Eq, Structural)]
pub enum Role {
    User,
    Agent,
    Harness,
}

/// Every leaf label a record view can carry.
#[derive(Debug, Clone, Copy, PartialEq, Eq, Structural)]
pub enum Class {
    UserMessage,
    UserAnswer,
    UserRejection,
    UserQueued,
    AgentMessage,
    AgentThinking,
    AgentThinkingNarration,
    AgentToolUse,
    AgentToolResult,
    CommInbox,
    CommSent,
    CommSignal,
    CommChannel,
    NotificationWorkflow,
    NotificationMonitor,
    NotificationSubagent,
    NotificationBackgroundCommand,
    NotificationTask,
    CompactionSummary,
    CompactionBoundary,
    CommandInvocation,
    CommandStdout,
    InterruptUser,
    InterruptTool,
    ScheduleWakeup,
    ScheduleContinuation,
    MetaHook,
    MetaLoop,
    MetaAttachment,
    MetaAwaySummary,
    MetaSnapshot,
    MetaStopHooks,
    MetaSystem,
    MetaTurnDuration,
}

/// The role a label belongs to: `user.*`, `agent.*` (communication included), or the
/// harness machinery.
pub open spec fn spec_role(c: Class) -> Role {
    match c {
        Class::UserMessage | Class::UserAnswer | Class::UserRejection | Class::UserQueued => Role::User,
        Class::AgentMessage | Class::AgentThinking | Class::AgentThinkingNarration
        | Class::AgentToolUse | Class::AgentToolResult | Class::CommInbox | Class::CommSent
        | Class::CommSignal | Class::CommChannel => Role::Agent,
        _ => Role::Harness,
    }
}

/// The three `agent.communication.*` views that render a `from ⇨ to` direction.
pub open spec fn spec_is_comm(c: Class) -> bool {
    c == Class::CommInbox || c == Class::CommSent || c == Class::CommSignal
}

/// The record-level text classes (classified from a record's string/text-block content).
pub open spec fn spec_is_record_text(c: Class) -> bool {
    match c {
        Class::UserMessage | Class::CommInbox | Class::CommSignal | Class::NotificationWorkflow
        | Class::NotificationMonitor | Class::NotificationSubagent
        | Class::NotificationBackgroundCommand | Class::NotificationTask
        | Class::CompactionSummary | Class::CompactionBoundary | Class::CommandInvocation
        | Class::CommandStdout | Class::InterruptUser | Class::InterruptTool
        | Class::ScheduleWakeup | Class::ScheduleContinuation | Class::MetaHook
        | Class::MetaLoop => true,
        _ => false,
    }
}

/// The fixed `--siblings` policy: message classes are never capped; narration 1,
/// thinking 2, tool use/result 3, harness machinery 2.
pub open spec fn spec_sibling_cap(c: Class) -> Option<usize> {
    if c == Class::AgentThinkingNarration {
        Some(1)
    } else if c == Class::AgentThinking {
        Some(2)
    } else if c == Class::AgentToolUse || c == Class::AgentToolResult {
        Some(3)
    } else if spec_role(c) == Role::Harness {
        Some(2)
    } else {
        None
    }
}

/// Message classes: every `user.*` leaf, `agent.message` and `agent.communication.*`.
pub open spec fn spec_is_message_class(c: Class) -> bool {
    spec_role(c) == Role::User || c == Class::AgentMessage || c == Class::CommInbox
        || c == Class::CommSent || c == Class::CommSignal || c == Class::CommChannel
}

/// The dotted label path of a leaf.
pub open spec fn spec_path(c: Class) -> Seq<char> {
    match c {
        Class::UserMessage => "user.message"@,
        Class::UserAnswer => "user.answer"@,
        Class::UserRejection => "user.rejection"@,
        Class::UserQueued => "user.queued"@,
        Class::AgentMessage => "agent.message"@,
        Class::AgentThinking => "agent.thinking"@,
        Class::AgentThinkingNarration => "agent.thinking.narration"@,
        Class::AgentToolUse => "agent.tool.use"@,
        Class::AgentToolResult => "agent.tool.result"@,
        Class::CommInbox => "agent.communication.inbox"@,
        Class::CommSent => "agent.communication.sent"@,
        Class::CommSignal => "agent.communication.signal"@,
        Class::CommChannel => "agent.communication.channel"@,
        Class::NotificationWorkflow => "harness.notification.workflow"@,
        Class::NotificationMonitor => "harness.notification.monitor"@,
        Class::NotificationSubagent => "harness.notification.subagent"@,
        Class::NotificationBackgroundCommand => "harness.notification.background-command"@,
        Class::NotificationTask => "harness.notification.task"@,
        Class::CompactionSummary => "harness.compaction.summary"@,
        Class::CompactionBoundary => "harness.compaction.boundary"@,
        Class::CommandInvocation => "harness.command.invocation"@,
        Class::CommandStdout => "harness.command.stdout"@,
        Class::InterruptUser => "harness.interrupt.user"@,
        Class::InterruptTool => "harness.interrupt.tool"@,
        Class::ScheduleWakeup => "harness.schedule.wakeup"@,
        Class::ScheduleContinuation => "harness.schedule.continuation"@,
        Class::MetaHook => "harness.meta.hook"@,
        Class::MetaLoop => "harness.meta.loop"@,
        Class::MetaAttachment => "harness.meta.attachment"@,
        Class::MetaAwaySummary => "harness.meta.away-summary"@,
        Class::MetaSnapshot => "harness.meta.snapshot"@,
        Class::MetaStopHooks => "harness.meta.stop-hooks"@,
        Class::MetaSystem => "harness.meta.system"@,
        Class::MetaTurnDuration => "harness.meta.turn-duration"@,
    }
}

impl Class {
    /// The role this label belongs to.
    pub fn role(self) -> (r: Role)
        ensures
            r == spec_role(self),
    {
        match self {
            Class::UserMessage | Class::UserAnswer | Class::UserRejection | Class::UserQueued => Role::User,
            Class::AgentMessage | Class::AgentThinking | Class::AgentThinkingNarration
            | Class::AgentToolUse | Class::AgentToolResult | Class::CommInbox | Class::CommSent
            | Class::CommSignal | Class::CommChannel => Role::Agent,
            _ => Role::Harness,
        }
    }

    /// The dotted label path rendered in text and JSON.
    pub fn path(self) -> (p: &'static str)
        ensures
            p@ == spec_path(self),
    {
        match self {
            Class::UserMessage => "user.message",
            Class::UserAnswer => "user.answer",
            Class::UserRejection => "user.rejection",
            Class::UserQueued => "user.queued",
            Class::AgentMessage => "agent.message",
            Class::AgentThinking => "agent.thinking",
            Class::AgentThinkingNarration => "agent.thinking.narration",
            Class::AgentToolUse => "agent.tool.use",
            Class::AgentToolResult => "agent.tool.result",
            Class::CommInbox => "agent.communication.inbox",
            Class::CommSent => "agent.communication.sent",
            Class::CommSignal => "agent.communication.signal",
            Class::CommChannel => "agent.communication.channel",
            Class::NotificationWorkflow => "harness.notification.workflow",
            Class::NotificationMonitor => "harness.notification.monitor",
            Class::NotificationSubagent => "harness.notification.subagent",
            Class::NotificationBackgroundCommand => "harness.notification.background-command",
            Class::NotificationTask => "harness.notification.task",
            Class::CompactionSummary => "harness.compaction.summary",
            Class::CompactionBoundary => "harness.compaction.boundary",
            Class::CommandInvocation => "harness.command.invocation",
            Class::CommandStdout => "harness.command.stdout",
            Class::InterruptUser => "harness.interrupt.user",
            Class::InterruptTool => "harness.interrupt.tool",
            Class::ScheduleWakeup => "harness.schedule.wakeup",
            Class::ScheduleContinuation => "harness.schedule.continuation",
            Class::MetaHook => "harness.meta.hook",
            Class::MetaLoop => "harness.meta.loop",
            Class::MetaAttachment => "harness.meta.attachment",
            Class::MetaAwaySummary => "harness.meta.away-summary",
            Class::MetaSnapshot => "harness.meta.snapshot",
            Class::MetaStopHooks => "harness.meta.stop-hooks",
            Class::MetaSystem => "harness.meta.system",
            Class::MetaTurnDuration => "harness.meta.turn-duration",
        }
    }

    /// Every leaf, in taxonomy order.
    pub fn all() -> (v: Vec<Class>)
        ensures
            v.len() == 34,
            forall|c: Class| #[trigger] v@.contains(c),
    {
        let v = vec![
            Class::UserMessage, Class::UserAnswer, Class::UserRejection, Class::UserQueued,
            Class::AgentMessage, Class::AgentThinking, Class::AgentThinkingNarration,
            Class::AgentToolUse, Class::AgentToolResult, Class::CommInbox, Class::CommSent,
            Class::CommSignal, Class::CommChannel, Class::NotificationWorkflow,
            Class::NotificationMonitor, Class::NotificationSubagent,
            Class::NotificationBackgroundCommand, Class::NotificationTask,
            Class::CompactionSummary, Class::CompactionBoundary, Class::CommandInvocation,
            Class::CommandStdout, Class::InterruptUser, Class::InterruptTool,
            Class::ScheduleWakeup, Class::ScheduleContinuation, Class::MetaHook, Class::MetaLoop,
            Class::MetaAttachment, Class::MetaAwaySummary, Class::MetaSnapshot,
            Class::MetaStopHooks, Class::MetaSystem, Class::MetaTurnDuration,
        ];
        assert forall|c: Class| #[trigger] v@.contains(c) by {
            match c {
                Class::UserMessage => assert(v@[0] == c),
                Class::UserAnswer => assert(v@[1] == c),
                Class::UserRejection => assert(v@[2] == c),
                Class::UserQueued => assert(v@[3] == c),
                Class::AgentMessage => assert(v@[4] == c),
                Class::AgentThinking => assert(v@[5] == c),
                Class::AgentThinkingNarration => assert(v@[6] == c),
                Class::AgentToolUse => assert(v@[7] == c),
                Class::AgentToolResult => assert(v@[8] == c),
                Class::CommInbox => assert(v@[9] == c),
                Class::CommSent => assert(v@[10] == c),
                Class::CommSignal => assert(v@[11] == c),
                Class::CommChannel => assert(v@[12] == c),
                Class::NotificationWorkflow => assert(v@[13] == c),
                Class::NotificationMonitor => assert(v@[14] == c),
                Class::NotificationSubagent => assert(v@[15] == c),
                Class::NotificationBackgroundCommand => assert(v@[16] == c),
                Class::NotificationTask => assert(v@[17] == c),
                Class::CompactionSummary => assert(v@[18] == c),
                Class::CompactionBoundary => assert(v@[19] == c),
                Class::CommandInvocation => assert(v@[20] == c),
                Class::CommandStdout => assert(v@[21] == c),
                Class::InterruptUser => assert(v@[22] == c),
                Class::InterruptTool => assert(v@[23] == c),
                Class::ScheduleWakeup => assert(v@[24] == c),
                Class::ScheduleContinuation => assert(v@[25] == c),
                Class::MetaHook => assert(v@[26] == c),
                Class::MetaLoop => assert(v@[27] == c),
                Class::MetaAttachment => assert(v@[28] == c),
                Class::MetaAwaySummary => assert(v@[29] == c),
                Class::MetaSnapshot => assert(v@[30] == c),
                Class::MetaStopHooks => assert(v@[31] == c),
                Class::MetaSystem => assert(v@[32] == c),
                Class::MetaTurnDuration => assert(v@[33] == c),
            }
        }
        v
    }
}

/// Glyph for the role a hit sits on: `◂` user, `▸` agent, `⚙` harness.
pub fn role_glyph(class: Class) -> (g: char)
    ensures
        g == (match spec_role(class) {
            Role::User => '◂',
            Role::Agent => '▸',
            Role::Harness => '⚙',
        }),
{
    match class.role() {
        Role::User => '◂',
        Role::Agent => '▸',
        Role::Harness => '⚙',
    }
}

/// The fixed `--siblings` cap for a leaf (`None` = always rendered).
pub fn sibling_cap(class: Class) -> (r: Option<usize>)
    ensures
        r == spec_sibling_cap(class),
        r is None <==> spec_is_message_class(class),
{
    if class == Class::AgentThinkingNarration {
        Some(1)
    } else if class == Class::AgentThinking {
        Some(2)
    } else if class == Class::AgentToolUse || class == Class::AgentToolResult {
        Some(3)
    } else if class.role() == Role::Harness {
        Some(2)
    } else {
        None
    }
}

/// True for the three `agent.communication.*` views that render `from ⇨ to`.
pub fn is_comm_class(c: Class) -> (b: bool)
    ensures
        b == spec_is_comm(c),
{
    c == Class::CommInbox || c == Class::CommSent || c == Class::CommSignal
}

/// True for a record-level text class.
pub fn is_record_text_class(c: Class) -> (b: bool)
    ensures
        b == spec_is_record_text(c),
{
    match c {
        Class::UserMessage | Class::CommInbox | Class::CommSignal | Class::NotificationWorkflow
        | Class::NotificationMonitor | Class::NotificationSubagent
        | Class::NotificationBackgroundCommand | Class::NotificationTask
        | Class::CompactionSummary | Class::CompactionBoundary | Class::CommandInvocation
        | Class::CommandStdout | Class::InterruptUser | Class::InterruptTool
        | Class::ScheduleWakeup | Class::ScheduleContinuation | Class::MetaHook
        | Class::MetaLoop => true,
        _ => false,
    }
}

} // verus!
