use csift::model::{Block, Content, Message, Record};
use csift::show::branch::{branch_head_lines, branch_points, branch_tail_lines, fork_lines, live_child_label, ChainFate,
    OpenerKind, Survival, Verdict};

fn rec(kind: &str, uuid: &str, parent: Option<&str>, ts: Option<&str>, content: Option<Content>) -> Record {
    Record {
        record_type: Some(kind.to_string()),
        subtype: None,
        uuid: Some(uuid.to_string()),
        parent_uuid: parent.map(str::to_string),
        timestamp: ts.map(str::to_string),
        is_meta: None,
        is_compact_summary: None,
        cwd: None,
        version: None,
        git_branch: None,
        session_id: None,
        message: content.map(|c| Message { role: Some(kind.to_string()), content: Some(c), model: None, id: None, usage: None }),
        content: None,
        compact_metadata: None,
        hook_context: None,
    }
}

fn text(t: &str) -> Option<Content> {
    Some(Content::Text(t.to_string()))
}

fn fate(survival: Survival, kind: Option<OpenerKind>) -> ChainFate {
    ChainFate { survival, kind }
}

fn fixture() -> (Vec<(usize, Record, bool)>, Vec<ChainFate>) {
    let carrier = Some(Content::Blocks(vec![Block::ToolResult {
        tool_use_id: Some("x".to_string()),
        content: Some("out".to_string()),
        is_error: None,
    }]));
    let mut summary = rec("user", "s0", Some("a0"), None, text("summary"));
    summary.is_compact_summary = Some(true);
    let rows = vec![
        (1, rec("user", "u0", None, Some("2026-06-07T05:00:00.000Z"), text("q")), false),
        (2, rec("assistant", "a0", Some("u0"), Some("2026-06-07T05:00:01.000Z"), text("a")), false),
        (3, rec("user", "u1", Some("a0"), Some("2026-06-07T05:00:10.000Z"), text("first try")), false),
        (4, rec("user", "u2", Some("a0"), Some("2026-06-07T06:00:10.000Z"), text("second try")), false),
        (5, rec("attachment", "h0", None, None, None), true),
        (6, rec("user", "u3", Some("h0"), None, text("after hook")), false),
        (7, rec("user", "u4", Some("h0"), Some("2026-06-07T06:00:20.000Z"), text("again")), false),
        (8, rec("user", "c0", Some("a0"), None, carrier), false),
        (9, summary, false),
    ];
    let fates = vec![
        fate(Survival::Live, None),
        fate(Survival::Live, None),
        fate(Survival::Abandoned, Some(OpenerKind::Rewound)),
        fate(Survival::Live, None),
        fate(Survival::Live, None),
        fate(Survival::Live, None),
        fate(Survival::Abandoned, None),
        fate(Survival::Live, None),
        fate(Survival::Live, None),
    ];
    (rows, fates)
}

#[test]
fn branch_points_rank_forks_by_widest_gap() {
    let (rows, fates) = fixture();
    let (points, conversation) = branch_points(&rows, &fates);
    assert_eq!(conversation, 6);
    assert_eq!(points.len(), 2);
    let a = &points[0];
    assert_eq!(a.uuid, "a0");
    assert_eq!(a.parent, Some((2, "assistant".to_string())));
    assert_eq!(a.children.iter().map(|c| c.line).collect::<Vec<_>>(), vec![3, 4]);
    assert_eq!(a.children[0].verdict, Verdict::Rewound);
    assert_eq!(a.children[1].verdict, Verdict::Live);
    assert_eq!(a.live_child_lines, vec![4]);
    assert_eq!(a.widest_gap_secs, Some(3600));
    let h = &points[1];
    assert_eq!(h.uuid, "h0");
    assert_eq!(h.parent, Some((5, "attachment".to_string())));
    assert_eq!(h.children.iter().map(|c| c.line).collect::<Vec<_>>(), vec![6, 7]);
    assert_eq!(h.children[1].verdict, Verdict::Abandoned);
    assert_eq!(h.live_child_lines, vec![6]);
    assert_eq!(h.widest_gap_secs, None, "an undated child makes the gap unknown");
}

#[test]
fn branch_points_without_forks() {
    let rows = vec![
        (1, rec("user", "u0", None, None, text("q")), false),
        (2, rec("assistant", "a0", Some("u0"), None, text("a")), false),
    ];
    let fates = vec![fate(Survival::Live, None), fate(Survival::Live, None)];
    let (points, conversation) = branch_points(&rows, &fates);
    assert!(points.is_empty());
    assert_eq!(conversation, 2);
    assert_eq!(branch_head_lines("sid", conversation, 0), vec![
        "BRANCH POINTS  sid".to_string(),
        "  2 conversation record(s) · 0 branch point(s) (a record with 2+ conversation children; tool-result carriers, isMeta records, and compaction summaries never count)".to_string(),
        "  no forks: every conversation record has at most one conversation child".to_string(),
    ]);
    assert!(branch_tail_lines(&points, 0).is_empty());
}

#[test]
fn branch_text_lines() {
    let (rows, fates) = fixture();
    let (points, _) = branch_points(&rows, &fates);
    let shown = vec!["T3".to_string(), "T4".to_string()];
    assert_eq!(fork_lines(0, &points[0], "sid", &shown), vec![
        "".to_string(),
        "  #1  uuid a0  L2  assistant  children 2 · widest gap 1h00m00s · live child: L4".to_string(),
        "      L3  T3  user  rewound".to_string(),
        "      L4  T4  user  live".to_string(),
        "      ↳ csift show @sid --line 4".to_string(),
    ]);
    let second = fork_lines(1, &points[1], "sid", &shown);
    assert_eq!(second[1], "  #2  uuid h0  L5  attachment  children 2 · widest gap unknown (missing timestamps) · live child: L6");
    let tail = branch_tail_lines(&points, 2);
    assert_eq!(tail.len(), 3);
    assert!(tail[1].starts_with("  ranked by widest inter-child gap"));
    assert_eq!(tail[2], "  (2 malformed lines skipped)");
}

#[test]
fn live_child_label_forms() {
    assert_eq!(live_child_label(&vec![]), "live child: none (this fork is off the surviving conversation)");
    assert_eq!(live_child_label(&vec![12]), "live child: L12");
    assert_eq!(live_child_label(&vec![3, 9]), "live children: L3 L9");
}

#[test]
fn branch_report_joins_head_forks_and_tail() {
    let (rows, fates) = fixture();
    let (points, conversation) = branch_points(&rows, &fates);
    let shown: Vec<Vec<String>> = points.iter().map(|p| p.children.iter().map(|_| "T".to_string()).collect()).collect();
    let all = csift::show::branch::branch_text_lines("sid", conversation, &points, 2, &shown);
    let head = branch_head_lines("sid", conversation, points.len());
    assert_eq!(all[..head.len()].to_vec(), head);
    let first = fork_lines(0, &points[0], "sid", &shown[0]);
    assert_eq!(all[head.len()..head.len() + first.len()].to_vec(), first);
    let tail = branch_tail_lines(&points, 2);
    assert_eq!(all[all.len() - tail.len()..].to_vec(), tail);
    let stamped = csift::show::branch::branch_text("sid", conversation, &points, 0);
    assert_eq!(stamped[0], "BRANCH POINTS  sid");
}
