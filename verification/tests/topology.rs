use csift::model::{Block, Content, Message, Record, ToolInput};
use csift::subagent::{PendingClassification, SubagentKind, SubagentStatus};
use csift::topology::{
    assign_depths, child_tail_text, index_transcript, journal_reports_completion, journal_result, journal_results,
    lifecycle, make_subagent, node_for, JournalEvent, MetaFields, ParentSpawnIndex, ReturnedMsgSource, Subagent,
    SubagentNode,
};

const SESS: &str = "0a1b2c3d-4e5f-4a6b-8c7d-9e0f1a2b3c4d";
const ENC: &str = "/p/-Users-testuser-Projects-foo";

fn rec(kind: &str, ts: Option<&str>, content: Content) -> Record {
    Record {
        record_type: Some(kind.to_string()),
        subtype: None,
        uuid: None,
        parent_uuid: None,
        timestamp: ts.map(str::to_string),
        is_meta: None,
        is_compact_summary: None,
        cwd: None,
        version: None,
        git_branch: None,
        session_id: None,
        message: Some(Message {
            role: Some(kind.to_string()),
            content: Some(content),
            model: None,
            id: None,
            usage: None,
        }),
        content: None,
        compact_metadata: None,
        hook_context: None,
    }
}

fn input(description: Option<&str>, subagent_type: Option<&str>, name: Option<&str>) -> ToolInput {
    ToolInput {
        json: "{}".to_string(),
        type_field: None,
        message_type: None,
        command: None,
        description: description.map(str::to_string),
        subagent_type: subagent_type.map(str::to_string),
        name: name.map(str::to_string),
        dangerous_command: false,
    }
}

fn tool_use(id: &str, name: &str, inp: ToolInput) -> Block {
    Block::ToolUse { id: Some(id.to_string()), name: Some(name.to_string()), input: Some(inp) }
}

fn tool_result(id: &str, text: &str) -> Block {
    Block::ToolResult { tool_use_id: Some(id.to_string()), content: Some(text.to_string()), is_error: None }
}

fn text(t: &str) -> Block {
    Block::Text { text: t.to_string() }
}

fn meta(agent_type: Option<&str>, description: Option<&str>, tool_use_id: Option<&str>) -> MetaFields {
    MetaFields {
        agent_type: agent_type.map(str::to_string),
        description: description.map(str::to_string),
        tool_use_id: tool_use_id.map(str::to_string),
        name: None,
        task_kind: None,
        team_name: None,
    }
}

/// The main session transcript of the two-agent layout.
fn main_records() -> Vec<Record> {
    vec![
        rec("user", None, Content::Text("hi".to_string())),
        rec(
            "assistant",
            Some("2026-06-07T04:59:58.000Z"),
            Content::Blocks(vec![tool_use(
                "toolu_x",
                "Agent",
                input(Some("run it"), Some("oh-my-claudecode:executor"), None),
            )]),
        ),
        rec("user", None, Content::Blocks(vec![tool_result("toolu_x", "SYNC RETURN: the built-in answer")])),
        rec(
            "assistant",
            Some("2026-06-07T05:59:55.000Z"),
            Content::Blocks(vec![tool_use("toolu_w", "Workflow", input(Some("the wf"), None, None))]),
        ),
    ]
}

fn builtin_records() -> Vec<Record> {
    vec![
        rec("user", Some("2026-06-07T05:00:00.000Z"), Content::Text("do the thing".to_string())),
        rec("assistant", Some("2026-06-07T05:03:20.000Z"), Content::Blocks(vec![text("done")])),
    ]
}

fn workflow_records() -> Vec<Record> {
    vec![
        rec("user", Some("2026-06-07T06:00:00.000Z"), Content::Text("wf task".to_string())),
        rec(
            "assistant",
            Some("2026-06-07T06:01:00.000Z"),
            Content::Blocks(vec![tool_use("t", "Bash", input(None, None, None))]),
        ),
    ]
}

fn builtin_sub() -> Subagent {
    make_subagent(
        &format!("{ENC}/{SESS}/subagents/agent-aaa111.jsonl"),
        SubagentKind::BuiltinTask,
        SESS,
        None,
        meta(Some("oh-my-claudecode:executor"), Some("run it"), Some("toolu_x")),
    )
}

fn workflow_sub() -> Subagent {
    make_subagent(
        &format!("{ENC}/{SESS}/subagents/workflows/wf_abc/agent-bbb222.jsonl"),
        SubagentKind::Workflow,
        SESS,
        Some("wf_abc".to_string()),
        meta(Some("workflow-subagent"), None, None),
    )
}

fn index_of(transcripts: &[(&Vec<Record>, Option<String>)]) -> ParentSpawnIndex {
    let mut idx = ParentSpawnIndex::new();
    for (records, issuer) in transcripts {
        index_transcript(&mut idx, records, issuer);
    }
    idx
}

/// The layout's nodes: the built-in (sync result) and the workflow agent (journal result).
fn layout_nodes() -> Vec<SubagentNode> {
    let main = main_records();
    let b = builtin_records();
    let w = workflow_records();
    let idx = index_of(&[
        (&main, None),
        (&b, Some("aaa111".to_string())),
        (&w, Some("bbb222".to_string())),
    ]);
    let mut nodes = vec![
        node_for(&builtin_sub(), &b, 0, false, &None, &idx, Vec::new()),
        node_for(
            &workflow_sub(),
            &w,
            0,
            true,
            &Some("WF RETURN: workflow journal payload".to_string()),
            &idx,
            Vec::new(),
        ),
    ];
    assign_depths(&mut nodes);
    nodes
}

#[test]
fn classifies_teammate_and_recovers_spawn_via_name_join() {
    let main = vec![
        rec("user", None, Content::Text("hi".to_string())),
        rec(
            "assistant",
            Some("2026-06-07T05:00:00.000Z"),
            Content::Blocks(vec![tool_use(
                "toolu_team",
                "Agent",
                input(Some("repro the bug"), Some("oh-my-claudecode:qa-tester"), Some("VSRepro")),
            )]),
        ),
    ];
    let child = vec![
        rec(
            "user",
            Some("2026-06-07T05:00:00.500Z"),
            Content::Text("<teammate-message teammate_id=\"team-lead\">repro it</teammate-message>".to_string()),
        ),
        rec("assistant", Some("2026-06-07T05:10:00.000Z"), Content::Blocks(vec![text("the matrix result")])),
    ];
    let m = MetaFields {
        agent_type: Some("VSRepro".to_string()),
        description: Some("repro the bug".to_string()),
        tool_use_id: None,
        name: Some("VSRepro".to_string()),
        task_kind: Some("in_process_teammate".to_string()),
        team_name: Some("session-25f56dee".to_string()),
    };
    let s = make_subagent(
        &format!("{ENC}/{SESS}/subagents/agent-aVSRepro-68a2a1661c9390c1.jsonl"),
        SubagentKind::BuiltinTask,
        SESS,
        None,
        m,
    );
    assert_eq!(s.kind, SubagentKind::Teammate);
    assert_eq!(s.agent_id, "aVSRepro-68a2a1661c9390c1");
    assert_eq!(s.name.as_deref(), Some("VSRepro"));
    assert_eq!(s.team_name.as_deref(), Some("session-25f56dee"));
    assert_eq!(s.spawn_tool_use_id, None);

    let idx = index_of(&[(&main, None), (&child, Some(s.agent_id.clone()))]);
    let mut nodes = vec![node_for(&s, &child, 0, false, &None, &idx, Vec::new())];
    assign_depths(&mut nodes);
    let n = nodes.iter().find(|n| n.kind == SubagentKind::Teammate).expect("the teammate node");
    assert_eq!(n.agent_type.as_deref(), Some("oh-my-claudecode:qa-tester"));
    assert_eq!(n.spawn_tool.as_deref(), Some("Agent"));
    assert_eq!(n.spawn_tool_use_id.as_deref(), Some("toolu_team"));
    assert_eq!(n.trigger_utc.as_deref(), Some("2026-06-07T05:00:00.000Z"));
    assert_eq!(n.started_utc.as_deref(), Some("2026-06-07T05:00:00.500Z"));
    assert_eq!(n.name.as_deref(), Some("VSRepro"));
    assert_eq!(n.team_name.as_deref(), Some("session-25f56dee"));
    assert_eq!(n.returned_message.as_deref(), Some("the matrix result"));
}

#[test]
fn lifecycle_builtin_from_transcript_terminal_message() {
    let lc = lifecycle(&builtin_sub(), &builtin_records(), 0, false);
    assert_eq!(lc.started_utc.as_deref(), Some("2026-06-07T05:00:00.000Z"));
    assert_eq!(lc.completed_utc.as_deref(), Some("2026-06-07T05:03:20.000Z"));
    assert_eq!(lc.status, SubagentStatus::Completed);
    assert_eq!(lc.agent_type.as_deref(), Some("oh-my-claudecode:executor"));
    assert_eq!(lc.description.as_deref(), Some("run it"));
}

#[test]
fn lifecycle_workflow_completion_from_journal_result() {
    let lc = lifecycle(&workflow_sub(), &workflow_records(), 0, true);
    assert_eq!(lc.status, SubagentStatus::Completed);
    assert_eq!(lc.agent_type.as_deref(), Some("workflow-subagent"));
    assert_eq!(lc.started_utc.as_deref(), Some("2026-06-07T06:00:00.000Z"));
    assert_eq!(lc.completed_utc.as_deref(), Some("2026-06-07T06:01:00.000Z"));
}

#[test]
fn make_subagent_threads_tool_use_id_onto_struct() {
    let builtin = builtin_sub();
    assert_eq!(builtin.spawn_tool_use_id.as_deref(), Some("toolu_x"));
    assert_eq!(builtin.agent_id, "aaa111");
    let wf = workflow_sub();
    assert!(wf.spawn_tool_use_id.is_none());
    assert_eq!(wf.agent_id, "bbb222");
    assert_eq!(wf.workflow_id.as_deref(), Some("wf_abc"));
}

#[test]
fn lifecycle_unknown_when_no_timestamps() {
    let records = vec![
        rec("user", None, Content::Text("no ts".to_string())),
        rec("assistant", None, Content::Blocks(vec![tool_use("t", "Bash", input(None, None, None))])),
    ];
    let sub = make_subagent(
        "/p/-Users-nots/s/subagents/agent-iii999.jsonl",
        SubagentKind::BuiltinTask,
        "s",
        None,
        meta(None, None, None),
    );
    let lc = lifecycle(&sub, &records, 0, false);
    assert!(lc.started_utc.is_none());
    assert_eq!(lc.status, SubagentStatus::Unknown);
}

#[test]
fn lifecycle_tail_terminal_flag_short_circuits_on_later_record() {
    let records = vec![
        rec("user", Some("2026-06-07T05:00:00.000Z"), Content::Text("start".to_string())),
        rec("assistant", Some("2026-06-07T05:00:10.000Z"), Content::Blocks(vec![text("older text")])),
        rec("assistant", None, Content::Blocks(vec![text("newest no-ts text")])),
    ];
    let sub = make_subagent(
        "/p/-Users-shortcirc/s/subagents/agent-jjj000.jsonl",
        SubagentKind::BuiltinTask,
        "s",
        None,
        meta(None, None, None),
    );
    let lc = lifecycle(&sub, &records, 0, false);
    assert_eq!(lc.status, SubagentStatus::Completed);
    assert_eq!(lc.completed_utc.as_deref(), Some("2026-06-07T05:00:10.000Z"));
}

#[test]
fn index_parent_spawns_finds_agent_and_workflow_tool_uses() {
    let main = main_records();
    let idx = index_of(&[(&main, None)]);
    let agent = idx.spawn("toolu_x").expect("the Agent spawn");
    assert_eq!(agent.name.as_deref(), Some("Agent"));
    assert_eq!(agent.trigger_utc.as_deref(), Some("2026-06-07T04:59:58.000Z"));
    assert_eq!(agent.subagent_type.as_deref(), Some("oh-my-claudecode:executor"));
    assert_eq!(
        idx.tool_result_text("toolu_x").map(String::as_str),
        Some("SYNC RETURN: the built-in answer")
    );
    let wf = idx.spawn("toolu_w").expect("the Workflow spawn");
    assert_eq!(wf.name.as_deref(), Some("Workflow"));
}

#[test]
fn index_parent_spawns_empty_for_empty_parent_transcript() {
    let empty: Vec<Record> = Vec::new();
    let idx = index_of(&[(&empty, None)]);
    assert!(idx.spawn("anything").is_none());
    assert!(idx.tool_result_text("anything").is_none());
}

#[test]
fn build_topology_links_trigger_time_and_sync_returned_message() {
    let nodes = layout_nodes();
    assert_eq!(nodes.len(), 2);
    let builtin = nodes.iter().find(|n| n.kind == SubagentKind::BuiltinTask).unwrap();
    assert_eq!(builtin.trigger_utc.as_deref(), Some("2026-06-07T04:59:58.000Z"));
    assert_eq!(builtin.started_utc.as_deref(), Some("2026-06-07T05:00:00.000Z"));
    assert_ne!(builtin.trigger_utc, builtin.started_utc);
    assert_eq!(builtin.spawn_tool.as_deref(), Some("Agent"));
    assert_eq!(builtin.returned_message.as_deref(), Some("SYNC RETURN: the built-in answer"));
    assert_eq!(builtin.returned_message_source, Some(ReturnedMsgSource::SyncToolResult));
}

#[test]
fn build_topology_resolves_workflow_returned_message_from_journal() {
    let nodes = layout_nodes();
    let wf = nodes.iter().find(|n| n.kind == SubagentKind::Workflow).unwrap();
    assert_eq!(wf.returned_message.as_deref(), Some("WF RETURN: workflow journal payload"));
    assert_eq!(wf.returned_message_source, Some(ReturnedMsgSource::WorkflowJournal));
}

#[test]
fn layout_nodes_are_direct_subagents_with_completion_only_when_completed() {
    let nodes = layout_nodes();
    for n in &nodes {
        assert_eq!(n.depth, 0);
        assert!(n.parent_agent_id.is_none());
    }
    let builtin = nodes.iter().find(|n| n.kind == SubagentKind::BuiltinTask).unwrap();
    assert_eq!(builtin.status, SubagentStatus::Completed);
    assert_eq!(builtin.completed_utc.as_deref(), Some("2026-06-07T05:03:20.000Z"));
    assert_eq!(builtin.last_activity_utc.as_deref(), Some("2026-06-07T05:03:20.000Z"));
    assert_eq!(builtin.description.as_deref(), Some("run it"));
    assert_eq!(builtin.agent_type.as_deref(), Some("oh-my-claudecode:executor"));
}

#[test]
fn async_launch_falls_back_to_child_transcript_tail() {
    let main = vec![
        rec(
            "assistant",
            Some("2026-06-07T04:00:00.000Z"),
            Content::Blocks(vec![tool_use("toolu_a", "Agent", input(None, None, None))]),
        ),
        rec(
            "user",
            None,
            Content::Blocks(vec![tool_result("toolu_a", "Async agent launched successfully.\nagentId: zzz999")]),
        ),
    ];
    let child = vec![
        rec("user", Some("2026-06-07T04:00:05.000Z"), Content::Text("go".to_string())),
        rec(
            "assistant",
            Some("2026-06-07T04:05:00.000Z"),
            Content::Blocks(vec![text("ASYNC TAIL: the real async answer")]),
        ),
    ];
    let sub = make_subagent(
        "/p/-Users-async/s/subagents/agent-zzz999.jsonl",
        SubagentKind::BuiltinTask,
        "s",
        None,
        meta(Some("general-purpose"), None, Some("toolu_a")),
    );
    let idx = index_of(&[(&main, None), (&child, Some("zzz999".to_string()))]);
    let n = node_for(&sub, &child, 0, false, &None, &idx, Vec::new());
    assert_eq!(n.returned_message.as_deref(), Some("ASYNC TAIL: the real async answer"));
    assert_eq!(n.returned_message_source, Some(ReturnedMsgSource::AsyncChildTail));
    assert_eq!(child_tail_text(&child).as_deref(), Some("ASYNC TAIL: the real async answer"));
}

#[test]
fn nested_spawn_links_parent_agent_and_depth() {
    // The main session spawns agent A; A's own transcript spawns agent B.
    let main = vec![rec(
        "assistant",
        Some("2026-06-07T04:00:00.000Z"),
        Content::Blocks(vec![tool_use("toolu_a", "Agent", input(None, None, None))]),
    )];
    let a = vec![
        rec("user", Some("2026-06-07T04:00:01.000Z"), Content::Text("go".to_string())),
        rec(
            "assistant",
            Some("2026-06-07T04:00:02.000Z"),
            Content::Blocks(vec![tool_use("toolu_b", "Task", input(Some("nested"), Some("explore"), None))]),
        ),
    ];
    let b = vec![rec("user", Some("2026-06-07T04:00:03.000Z"), Content::Text("sub".to_string()))];
    let sa = make_subagent("/p/s/subagents/agent-aaa.jsonl", SubagentKind::BuiltinTask, "s", None,
        meta(None, None, Some("toolu_a")));
    let sb = make_subagent("/p/s/subagents/agent-bbb.jsonl", SubagentKind::BuiltinTask, "s", None,
        meta(None, None, Some("toolu_b")));
    let idx = index_of(&[(&main, None), (&a, Some("aaa".to_string())), (&b, Some("bbb".to_string()))]);
    let mut nodes = vec![
        node_for(&sa, &a, 0, false, &None, &idx, Vec::new()),
        node_for(&sb, &b, 2, false, &None, &idx, vec![("x.rs".to_string(), "edit".to_string(), false)]),
    ];
    assign_depths(&mut nodes);
    assert_eq!(nodes[0].depth, 0);
    assert!(nodes[0].parent_agent_id.is_none());
    assert_eq!(nodes[1].depth, 1);
    assert_eq!(nodes[1].parent_agent_id.as_deref(), Some("aaa"));
    assert_eq!(nodes[1].agent_type.as_deref(), Some("explore"));
    assert_eq!(nodes[1].description.as_deref(), Some("nested"));
    assert_eq!(nodes[1].spawn_tool.as_deref(), Some("Task"));
    assert_eq!(nodes[1].skipped_lines, 2);
    assert_eq!(nodes[1].files_changed.len(), 1);
    // B's transcript ends on a user record with no reply: still starting, not completed.
    assert!(nodes[1].completed_utc.is_none());
    assert_eq!(nodes[1].last_activity_utc.as_deref(), Some("2026-06-07T04:00:03.000Z"));
}

#[test]
fn forged_cycle_depth_is_capped() {
    let a = vec![rec(
        "assistant",
        Some("2026-06-07T04:00:00.000Z"),
        Content::Blocks(vec![tool_use("toolu_b", "Agent", input(None, None, None))]),
    )];
    let b = vec![rec(
        "assistant",
        Some("2026-06-07T04:00:01.000Z"),
        Content::Blocks(vec![tool_use("toolu_a", "Agent", input(None, None, None))]),
    )];
    let sa = make_subagent("/p/s/subagents/agent-aaa.jsonl", SubagentKind::BuiltinTask, "s", None,
        meta(None, None, Some("toolu_a")));
    let sb = make_subagent("/p/s/subagents/agent-bbb.jsonl", SubagentKind::BuiltinTask, "s", None,
        meta(None, None, Some("toolu_b")));
    let idx = index_of(&[(&a, Some("aaa".to_string())), (&b, Some("bbb".to_string()))]);
    let mut nodes = vec![
        node_for(&sa, &a, 0, false, &None, &idx, Vec::new()),
        node_for(&sb, &b, 0, false, &None, &idx, Vec::new()),
    ];
    assign_depths(&mut nodes);
    assert_eq!(nodes[0].depth, 65);
    assert_eq!(nodes[1].depth, 65);
}

#[test]
fn frozen_dangerous_bash_is_escalation_blocked() {
    let mut danger = input(None, None, None);
    danger.command = Some("rm -rf /tmp/x".to_string());
    danger.dangerous_command = true;
    let records = vec![
        rec("user", Some("2026-06-07T05:00:00.000Z"), Content::Text("start".to_string())),
        rec("assistant", Some("2026-06-07T05:00:09.000Z"), Content::Blocks(vec![tool_use("tu1", "Bash", danger)])),
    ];
    let sub = make_subagent("/p/s/subagents/agent-fff.jsonl", SubagentKind::BuiltinTask, "s", None,
        meta(None, None, None));
    let idx = ParentSpawnIndex::new();
    let n = node_for(&sub, &records, 0, false, &None, &idx, Vec::new());
    assert_eq!(n.status, SubagentStatus::Running);
    assert_eq!(n.pending_tool_use_id.as_deref(), Some("tu1"));
    assert_eq!(n.pending_tool_name.as_deref(), Some("Bash"));
    assert_eq!(n.pending_classification, Some(PendingClassification::EscalationBlocked));
    assert_eq!(n.pending_since_utc.as_deref(), Some("2026-06-07T05:00:09.000Z"));
    assert!(n.completed_utc.is_none());
    assert_eq!(n.last_activity_utc.as_deref(), Some("2026-06-07T05:00:09.000Z"));
    // No spawn for this agent: the trigger falls back to the child's first timestamp.
    assert_eq!(n.trigger_utc.as_deref(), Some("2026-06-07T05:00:00.000Z"));
}

#[test]
fn frozen_plain_call_awaits_execution() {
    let records = vec![rec(
        "assistant",
        Some("2026-06-07T05:00:09.000Z"),
        Content::Blocks(vec![tool_use("tu2", "Read", input(None, None, None))]),
    )];
    let sub = make_subagent("/p/s/subagents/agent-ggg.jsonl", SubagentKind::BuiltinTask, "s", None,
        meta(None, None, None));
    let n = node_for(&sub, &records, 0, false, &None, &ParentSpawnIndex::new(), Vec::new());
    assert_eq!(n.pending_classification, Some(PendingClassification::AwaitingExecution));
    assert_eq!(n.pending_tool_name.as_deref(), Some("Read"));
}

fn ev(kind: &str, agent: &str, result: Option<&str>) -> JournalEvent {
    JournalEvent {
        kind: Some(kind.to_string()),
        agent_id: Some(agent.to_string()),
        result: result.map(str::to_string),
    }
}

fn wf_sub(agent: &str) -> Subagent {
    make_subagent(
        &format!("/p/s/subagents/workflows/wf_jc1/agent-{agent}.jsonl"),
        SubagentKind::Workflow,
        "s",
        Some("wf_jc1".to_string()),
        meta(None, None, None),
    )
}

#[test]
fn journal_cache_first_result_event_wins_and_renders_nonstring() {
    // Unparseable lines never become events; a non-string payload arrives rendered.
    let events = vec![
        ev("result", "aaa111", None),
        ev("result", "aaa111", Some("late")),
        ev("result", "bbb222", Some("{\"k\":1}")),
    ];
    let table = journal_results(&events);
    let a = wf_sub("aaa111");
    let b = wf_sub("bbb222");
    assert!(journal_reports_completion(&a, &table));
    assert!(journal_reports_completion(&b, &table));
    assert_eq!(journal_result(&a, &table), None);
    assert_eq!(journal_result(&b, &table).as_deref(), Some("{\"k\":1}"));
}

#[test]
fn journal_completion_handles_missing_malformed_and_nonmatching() {
    let events = vec![ev("started", "ggg777", None), ev("result", "someone-else", None)];
    let table = journal_results(&events);
    let sub = wf_sub("ggg777");
    assert!(!journal_reports_completion(&sub, &table));
    let records = vec![
        rec("user", Some("2026-06-07T06:00:00.000Z"), Content::Text("x".to_string())),
        rec("assistant", Some("2026-06-07T06:00:30.000Z"), Content::Blocks(vec![tool_use("t", "Bash", input(None, None, None))])),
    ];
    let lc = lifecycle(&sub, &records, 0, journal_reports_completion(&sub, &table));
    assert_eq!(lc.status, SubagentStatus::Running, "no matching result → not completed");
}

#[test]
fn journal_completion_false_for_builtin_no_workflow() {
    let table = journal_results(&vec![ev("result", "fff666", Some("x"))]);
    let sub = make_subagent("/p/s/subagents/agent-fff666.jsonl", SubagentKind::BuiltinTask, "s", None, meta(None, None, None));
    assert!(!journal_reports_completion(&sub, &table));
    assert_eq!(journal_result(&sub, &table), None);
    let records = vec![
        rec("user", Some("2026-06-07T05:00:00.000Z"), Content::Text("x".to_string())),
        rec("assistant", Some("2026-06-07T05:00:10.000Z"), Content::Blocks(vec![tool_use("t", "Bash", input(None, None, None))])),
    ];
    let lc = lifecycle(&sub, &records, 0, journal_reports_completion(&sub, &table));
    assert_eq!(lc.status, SubagentStatus::Running);
}
