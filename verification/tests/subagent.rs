use csift::subagent::{
    bare_agent_id, duration_label, is_subagent_path, parent_session_id_from_path, resolve_status,
    session_id_from_path, SubagentKind, SubagentStatus,
};

#[test]
fn duration_label_formats() {
    assert_eq!(
        duration_label(Some("2026-06-07T05:00:00.000Z"), Some("2026-06-07T05:03:20.000Z")).as_deref(),
        Some("3m20s")
    );
    assert_eq!(
        duration_label(Some("2026-06-07T05:00:00Z"), Some("2026-06-07T07:05:00Z")).as_deref(),
        Some("2h05m")
    );
    assert_eq!(
        duration_label(Some("2026-06-07T05:00:00Z"), Some("2026-06-07T05:00:03Z")).as_deref(),
        Some("3s")
    );
    assert!(duration_label(None, Some("2026-06-07T05:00:00Z")).is_none());
}

#[test]
fn kind_and_status_labels() {
    assert_eq!(SubagentKind::BuiltinTask.label(), "builtin-task");
    assert_eq!(SubagentKind::Workflow.label(), "workflow");
    assert_eq!(SubagentStatus::Completed.label(), "completed");
    assert_eq!(SubagentStatus::Running.label(), "running");
    assert_eq!(SubagentStatus::Unknown.label(), "unknown");
}

#[test]
fn resolve_status_all_arms() {
    assert_eq!(resolve_status(true, true, false, true), SubagentStatus::Completed);
    assert_eq!(resolve_status(true, false, true, true), SubagentStatus::Completed);
    assert_eq!(resolve_status(true, false, false, true), SubagentStatus::Running);
    assert_eq!(resolve_status(false, false, false, false), SubagentStatus::Unknown);
    assert_eq!(resolve_status(true, false, false, false), SubagentStatus::Unknown);
}

#[test]
fn duration_label_none_for_unparseable_bounds() {
    assert!(duration_label(Some("garbage"), Some("2026-06-07T05:00:00Z")).is_none());
    assert!(duration_label(Some("2026-06-07T05:00:00Z"), Some("not-a-time")).is_none());
    assert_eq!(
        duration_label(Some("2026-06-07T05:00:10Z"), Some("2026-06-07T05:00:00Z")).as_deref(),
        Some("0s")
    );
}

#[test]
fn bare_agent_id_strips_prefix_only_when_present() {
    assert_eq!(bare_agent_id("agent-aaa111"), "aaa111");
    assert_eq!(
        bare_agent_id("0a1b2c3d-4e5f-4a6b-8c7d-9e0f1a2b3c4d"),
        "0a1b2c3d-4e5f-4a6b-8c7d-9e0f1a2b3c4d"
    );
}

#[test]
fn session_id_from_path_is_canonical_bare_hex() {
    assert_eq!(
        session_id_from_path(
            "/x/-Enc/0a1b2c3d-4e5f-4a6b-8c7d-9e0f1a2b3c4d/subagents/agent-a585e25a580c59e7a.jsonl"
        ),
        "a585e25a580c59e7a"
    );
    assert_eq!(
        session_id_from_path("/x/-Enc/0a1b2c3d-4e5f-4a6b-8c7d-9e0f1a2b3c4d.jsonl"),
        "0a1b2c3d-4e5f-4a6b-8c7d-9e0f1a2b3c4d"
    );
    assert_eq!(session_id_from_path("/"), "");
}

#[test]
fn parent_session_id_and_is_subagent_from_path() {
    let sub = "/x/-Enc/0a1b2c3d-4e5f-4a6b-8c7d-9e0f1a2b3c4d/subagents/agent-a585e25a580c59e7a.jsonl";
    let wf = "/x/-Enc/0a1b2c3d-4e5f-4a6b-8c7d-9e0f1a2b3c4d/subagents/workflows/wf_abc/agent-aaa.jsonl";
    let top = "/x/-Enc/0a1b2c3d-4e5f-4a6b-8c7d-9e0f1a2b3c4d.jsonl";
    assert_eq!(parent_session_id_from_path(sub).as_deref(), Some("0a1b2c3d-4e5f-4a6b-8c7d-9e0f1a2b3c4d"));
    assert!(is_subagent_path(sub));
    assert_eq!(parent_session_id_from_path(wf).as_deref(), Some("0a1b2c3d-4e5f-4a6b-8c7d-9e0f1a2b3c4d"));
    assert!(is_subagent_path(wf));
    assert_eq!(parent_session_id_from_path(top), None);
    assert!(!is_subagent_path(top));
}
