use csift::model::{Block, Content, Message, Record};
use csift::session::{capture_identity_if_empty, summarize_session, SessionSummary};
use csift::timefmt::format_timestamp;

fn rec(kind: &str, content: Option<Content>) -> Record {
    Record {
        record_type: Some(kind.to_string()),
        subtype: None,
        uuid: None,
        parent_uuid: None,
        timestamp: None,
        is_meta: None,
        is_compact_summary: None,
        cwd: None,
        version: None,
        git_branch: None,
        session_id: None,
        message: content.map(|c| Message {
            role: Some(kind.to_string()),
            content: Some(c),
            model: None,
            id: None,
            usage: None,
        }),
        content: None,
        compact_metadata: None,
        hook_context: None,
    }
}

fn user(text: &str) -> Record {
    rec("user", Some(Content::Text(text.to_string())))
}

fn agent(text: &str) -> Record {
    rec("assistant", Some(Content::Blocks(vec![Block::Text { text: text.to_string() }])))
}

fn with_identity(mut r: Record, cwd: &str, version: &str, branch: &str, sid: &str) -> Record {
    r.cwd = Some(cwd.to_string());
    r.version = Some(version.to_string());
    r.git_branch = Some(branch.to_string());
    r.session_id = Some(sid.to_string());
    r
}

fn summarize(path: &str, records: Vec<Record>) -> SessionSummary {
    summarize_session(path, &records, 0, Vec::new(), false)
}

#[test]
fn capture_identity_if_empty_only_fills_blanks() {
    let r = with_identity(user("x"), "/c", "9.9", "b", "sid");
    let mut cwd = None;
    let mut version = Some("keep".to_string());
    let mut branch = None;
    let mut sid = None;
    capture_identity_if_empty(&r, &mut cwd, &mut version, &mut branch, &mut sid);
    assert_eq!(cwd.as_deref(), Some("/c"));
    assert_eq!(version.as_deref(), Some("keep"), "pre-set value preserved");
    assert_eq!(branch.as_deref(), Some("b"));
    assert_eq!(sid.as_deref(), Some("sid"));
}

#[test]
fn format_timestamp_uses_system_local_canonical_marker() {
    let raw = "2026-06-07T05:48:22.880Z";
    let out = format_timestamp(Some(raw));
    let ts: jiff::Timestamp = raw.parse().expect("parseable instant");
    let local = ts.to_zoned(jiff::tz::TimeZone::system()).strftime("%Y-%m-%d %H:%M:%S").to_string();
    assert!(out.contains(&local), "expected local {local:?} in {out:?}");
    assert!(out.contains("(UTC"), "marker missing: {out}");
    assert!(!out.contains(raw), "the raw-UTC copy must be gone: {out}");
}

#[test]
fn summarize_head_first_user_captures_identity() {
    let s = summarize("/tmp/head.jsonl", vec![
        with_identity(user("first q"), "/Users/testuser/Projects/foo", "2.1.0", "main", "sid-data"),
        agent("mid agent"),
        user("last q"),
        agent("last agent"),
    ]);
    assert_eq!(s.cwd.as_deref(), Some("/Users/testuser/Projects/foo"));
    assert_eq!(s.version.as_deref(), Some("2.1.0"));
    assert_eq!(s.git_branch.as_deref(), Some("main"));
    assert_eq!(s.first_user.as_ref().unwrap().excerpt, "first q");
    assert_eq!(s.last_user.as_ref().unwrap().excerpt, "last q");
    assert_eq!(s.last_agent.as_ref().unwrap().excerpt, "last agent");
}

#[test]
fn summarize_backfills_identity_from_tail_when_head_user_lacks_it() {
    let s = summarize("/tmp/tailfill.jsonl", vec![
        user("first q, no identity"),
        agent("a"),
        with_identity(user("last q, has identity"), "/tail/cwd", "3.0", "dev", "sid-tail"),
    ]);
    assert_eq!(s.first_user.as_ref().unwrap().excerpt, "first q, no identity");
    assert_eq!(s.last_user.as_ref().unwrap().excerpt, "last q, has identity");
    assert_eq!(s.cwd.as_deref(), Some("/tail/cwd"));
    assert_eq!(s.version.as_deref(), Some("3.0"));
    assert_eq!(s.git_branch.as_deref(), Some("dev"));
}

#[test]
fn summarize_session_id_from_data_when_filename_has_no_stem() {
    let mut r = user("hi");
    r.session_id = Some("sid-data-xyz".to_string());
    let s = summarize("/tmp/dataid.jsonl", vec![r.clone()]);
    assert!(!s.session_id.is_empty());
    // A path naming no file falls back to the data's sessionId.
    let s2 = summarize("/", vec![r]);
    assert_eq!(s2.session_id, "sid-data-xyz");
}

#[test]
fn summarize_head_skips_non_genuine_records_before_first_user() {
    let mut meta = user("Continue from where you left off.");
    meta.is_meta = Some(true);
    let carrier = rec("user", Some(Content::Blocks(vec![Block::ToolResult {
        tool_use_id: Some("x".to_string()),
        content: Some("carrier".to_string()),
        is_error: None,
    }])));
    let s = summarize("/tmp/headnoise.jsonl", vec![
        rec("last-prompt", None),
        meta,
        carrier,
        user("the genuine first question"),
        agent("a"),
    ]);
    assert_eq!(s.first_user.as_ref().unwrap().excerpt, "the genuine first question");
}

#[test]
fn top_level_summary_is_not_subagent_and_is_its_own_parent() {
    let s = summarize("/tmp/toplevel.jsonl", vec![user("hi")]);
    assert!(!s.is_subagent);
    assert_eq!(s.parent_session_id, "toplevel");
    assert_eq!(s.parent_session_id, s.session_id);
}

#[test]
fn subagent_summary_carries_is_subagent_and_refeedable_parent() {
    let s = summarize(
        "/tmp/x/11111111-2222-3333-4444-555555555555/subagents/workflows/wf_z/agent-deadbeefcafe1234.jsonl",
        vec![user("sub work")],
    );
    assert_eq!(s.session_id, "deadbeefcafe1234", "bare hex (agent- stripped)");
    assert!(s.is_subagent, "a subagents/ path is a subagent transcript");
    assert_eq!(s.parent_session_id, "11111111-2222-3333-4444-555555555555");
}

#[test]
fn summarize_session_id_is_filename_stem() {
    let mut r = user("hi");
    r.session_id = Some("DATA-ID".to_string());
    let s = summarize("/tmp/stemid.jsonl", vec![r]);
    assert_eq!(s.session_id, "stemid");
    assert_ne!(s.session_id, "DATA-ID");
}
