use csift::session::{MessagePreview, SessionSummary};
use csift::session_render::{list_text, list_text_lines};

fn summary(sub: bool) -> SessionSummary {
    SessionSummary {
        session_id: if sub { "abc123".to_string() } else { "u1".to_string() },
        is_subagent: sub,
        parent_session_id: "u1".to_string(),
        path: "/p/u1.jsonl".to_string(),
        cwd: Some("/work".to_string()),
        version: Some("2.1.0".to_string()),
        git_branch: Some("main".to_string()),
        first_user: Some(MessagePreview { timestamp_utc: Some("t".to_string()), excerpt: "hi".to_string() }),
        last_user: None,
        last_agent: None,
        skipped_lines: 0,
        pending_elicitations: Vec::new(),
        sidecar_present: false,
    }
}

#[test]
fn list_text_renders_each_row_block() {
    let mut sub = summary(true);
    sub.cwd = None;
    sub.git_branch = None;
    sub.version = None;
    sub.skipped_lines = 3;
    sub.pending_elicitations = vec!["Which plan?".to_string()];
    let rows = vec![summary(false), sub];
    let st = |a: &str| (a.to_string(), "B".to_string(), "C".to_string());
    let lines = list_text_lines(&rows, 2, &vec![st("A1"), st("A2")]);
    let expected: Vec<String> = vec![
        "SESSION  u1",
        "  cwd      /work   (branch main, CC 2.1.0)",
        "  first ◂  A1",
        "           hi",
        "  last ◂   —",
        "  last ▸   —",
        "",
        "SUBAGENT  abc123  ·  parent SESSION u1",
        "  cwd      <unknown cwd>",
        "  first ◂  A2",
        "           hi",
        "  last ◂   —",
        "  last ▸   —",
        "  pending  with elicitation sidecar",
        "           ⏳ Which plan?",
        "  note     3 malformed lines skipped (among the head/tail lines read — full census: csift stats)",
        "",
        "… (+2 more session(s) not shown — the most recently active are listed; narrow with a target or --since, or raise --max-count)",
    ]
    .into_iter()
    .map(str::to_string)
    .collect();
    assert_eq!(lines, expected);
}

#[test]
fn list_text_empty_and_version_only() {
    assert_eq!(list_text(&Vec::new(), 0), vec!["no sessions found".to_string()]);
    let mut s = summary(false);
    s.git_branch = None;
    s.first_user = None;
    let lines = list_text(&vec![s], 0);
    assert_eq!(lines[1], "  cwd      /work   (CC 2.1.0)");
    assert_eq!(lines[2], "  first ◂  —");
    assert_eq!(lines.len(), 5);
}
