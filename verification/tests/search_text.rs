use csift::labels::Class;
use csift::search::text_out::{header_tokens, record_line, search_text, search_text_lines};
use csift::search::types::{ChainCounts, Exchange, Hit, Pairing, SearchOutcome};
use csift::search::notes::{advisory_notes, count_only_total, sessions_with_matches};

fn hit(line: usize, class: Class) -> Hit {
    Hit {
        class: Some(class),
        labels: vec![class],
        excerpt: "the text".to_string(),
        timestamp_utc: None,
        tool_name: None,
        model: None,
        attachment_type: None,
        version: None,
        is_error: None,
        direction: None,
        tool_use_id: None,
        pair: None,
        line,
        uuid: None,
        raw: None,
        image_ids: Vec::new(),
        from_sidecar: false,
        queue_operation: None,
        queue_reason: None,
        delivery: None,
        resume_paired: None,
        truncated: false,
    }
}

fn exchange(sid: &str, parent: &str, sub: bool, turn: Option<usize>, hits: Vec<Hit>) -> Exchange {
    Exchange {
        session_id: sid.to_string(),
        is_subagent: sub,
        parent_session_id: parent.to_string(),
        turn_index: turn,
        started_utc: Some("2026-06-07T05:00:00Z".to_string()),
        hits,
        siblings: Vec::new(),
        siblings_hidden: 0,
        turn_lines: (0, 0),
        record_uuids: Vec::new(),
        superseded_draft: false,
    }
}

fn chain() -> ChainCounts {
    ChainCounts {
        abandoned_records: 0,
        drafts: 0,
        rewound_turns: 0,
        replay_copies: 0,
        boundary_cut_line: None,
        leaf_source: None,
        transcripts: 0,
    }
}

fn outcome(exchanges: Vec<Exchange>) -> SearchOutcome {
    let n = exchanges.len();
    SearchOutcome {
        exchanges,
        total_matched: n,
        total_sessions: 1,
        dropped_by_cap: 0,
        skipped_lines: 0,
        chain: chain(),
        scope_top: 1,
        scope_sub: 0,
    }
}

const U1: &str = "0a1b2c3d-4e5f-4a6b-8c7d-9e0f1a2b3c4d";
const U2: &str = "0a1b2c3d-ffff-4a6b-8c7d-9e0f1a2b3c4d";
const U3: &str = "0a1b2c3d-ffff-0000-8c7d-9e0f1a2b3c4d";

#[test]
fn record_line_carries_label_tool_locator_and_excerpt() {
    let mut h = hit(46, Class::AgentToolUse);
    h.tool_name = Some("Bash".to_string());
    h.pair = Some(Pairing::Paired);
    assert_eq!(record_line('▸', &h), "  ▸ agent.tool.use ▹ agent.tool.result Bash  L46  the text");
    h.from_sidecar = true;
    h.image_ids = vec!["#1".to_string()];
    assert_eq!(
        record_line('·', &h),
        "  · agent.tool.use ▹ agent.tool.result Bash  (elicitation sidecar)  the text  [1 image: #1]"
    );
}

#[test]
fn header_tokens_lengthen_only_colliding_ids() {
    let ex = vec![
        exchange(U1, U1, false, Some(0), vec![]),
        exchange(U2, U2, false, Some(0), vec![]),
        exchange("aVSRepro-68a2a1661c9390c1", U1, true, Some(0), vec![]),
        exchange("abc123", U1, true, Some(0), vec![]),
        exchange(U1, U1, false, Some(1), vec![]),
    ];
    let t = header_tokens(&ex);
    let got: Vec<(&str, &str)> = t.iter().map(|(a, b)| (a.as_str(), b.as_str())).collect();
    assert_eq!(
        got,
        vec![
            (U1, "0a1b2c3d-4e5"),
            (U2, "0a1b2c3d-fff"),
            ("aVSRepro-68a2a1661c9390c1", "aVSRepro-68a2a1661c9390c1"),
            ("abc123", "abc123"),
        ]
    );
    let ex3 = vec![exchange(U2, U2, false, Some(0), vec![]), exchange(U3, U3, false, Some(0), vec![])];
    let t3 = header_tokens(&ex3);
    assert_eq!(t3[0].1, U2, "a pair still colliding at 12 chars stays whole");
    assert_eq!(t3[1].1, U3);
    let single = header_tokens(&vec![exchange(U1, U1, false, Some(0), vec![])]);
    assert_eq!(single[0].1, "0a1b2c3d");
}

#[test]
fn empty_search_says_so() {
    let mut o = outcome(Vec::new());
    assert_eq!(search_text_lines(&o, &vec![], &vec![], None, &vec![]), vec!["no matching exchanges".to_string()]);
    o.skipped_lines = 2;
    assert_eq!(
        search_text_lines(&o, &vec![], &vec![], None, &vec![]),
        vec!["no matching exchanges".to_string(), "(2 malformed lines skipped)".to_string()]
    );
}

#[test]
fn search_text_banner_rows_and_footer() {
    let mut img = hit(7, Class::UserMessage);
    img.image_ids = vec!["#1".to_string()];
    let agent_hit = hit(12, Class::AgentMessage);
    let ex = vec![
        exchange(U1, U1, false, Some(3), vec![img.clone(), agent_hit]),
        exchange("abc123", U1, true, None, vec![img]),
    ];
    let mut o = outcome(ex);
    o.dropped_by_cap = 1;
    o.total_matched = 3;
    let lines = search_text_lines(&o, &vec!["user".to_string()], &vec![], Some(-2), &vec!["S0".to_string(), "S1".to_string()]);
    let expected: Vec<String> = vec![
        "matches  3 exchanges · 1 session · oldest first · showing latest 2",
        "",
        "0a1b2c3d·t3  S0",
        "  ◂ user.message  L7  the text  [1 image: #1]",
        "      ↳ read the image(s): csift image @0a1b2c3d-4e5f-4a6b-8c7d-9e0f1a2b3c4d --id 1 --out DIR           (decodes to a file you can then Read - an image-bearing turn is evidence, not a blank)",
        "  ▸ agent.message  L12  the text",
        "",
        "abc123·t? (parent 0a1b2c3d)  S1",
        "  ◂ user.message  L7  the text  [1 image: #1]",
        "      ↳ csift show @abc123 --line 7",
        "",
        "matched 3 exchanges · 1 session · label=user · 1 earlier dropped by --max-count",
        "note: image annotations above are extractable, not decorative: csift image <target> --id <ID> --out DIR (bare number for a #N handle), then Read the decoded file.",
    ]
    .into_iter()
    .map(str::to_string)
    .collect();
    assert_eq!(lines, expected);
}

#[test]
fn search_text_discloses_truncation_drafts_and_hidden_siblings() {
    let mut h = hit(5, Class::UserMessage);
    h.truncated = true;
    let mut ex = exchange(U1, U1, false, Some(0), vec![h]);
    ex.started_utc = None;
    ex.siblings = vec![hit(6, Class::AgentMessage)];
    ex.siblings_hidden = 4;
    ex.turn_lines = (5, 30);
    let mut o = outcome(vec![ex]);
    o.chain.drafts = 2;
    let lines = search_text(&o, &vec![], &vec!["agent".to_string(), "harness".to_string()], None);
    assert_eq!(lines[0], "matches  1 exchange · 1 session · oldest first · undated last");
    assert_eq!(lines[2], "0a1b2c3d·t0  —");
    assert_eq!(lines[4], "  · agent.message  L6  the text");
    assert_eq!(lines[5], "  · (+4 more · csift show @0a1b2c3d-4e5f-4a6b-8c7d-9e0f1a2b3c4d --line 5..30)");
    assert_eq!(lines[7], "matched 1 exchange · 1 session · label=all · label-not=agent,harness");
    assert!(lines[8].starts_with("(2 superseded draft(s) collapsed"));
    assert_eq!(lines[9], "");
    assert!(lines[10].starts_with("note: matches above are TRUNCATED"));
    assert_eq!(lines[11], "  whole records: re-run with --no-truncate");
    assert_eq!(lines.len(), 13);
}

#[test]
fn count_only_and_session_listing() {
    let ex = vec![
        exchange("abc123", "u2", true, Some(0), vec![]),
        exchange(U1, U1, false, Some(0), vec![]),
        exchange("def456", "u2", true, Some(1), vec![]),
    ];
    let mut o = outcome(ex);
    assert_eq!(count_only_total(&o), 3);
    o.dropped_by_cap = 4;
    assert_eq!(count_only_total(&o), 7);
    let (ids, note) = sessions_with_matches(&o, false).unwrap();
    assert_eq!(ids, vec![U1.to_string(), "u2".to_string()]);
    assert_eq!(
        note.as_deref(),
        Some("csift: note: 4 exchange(s) dropped by --max-count — this session listing may be incomplete; raise --max-count")
    );
    assert!(sessions_with_matches(&o, true).is_err());
}

#[test]
fn advisory_notes_for_uuid_patterns_and_unbounded_scans() {
    let n = advisory_notes(U1, false, true, false, false, true, false);
    assert_eq!(n.len(), 1);
    assert!(n[0].ends_with(&format!("`csift search <PATTERN> @{U1}`")));
    assert!(advisory_notes(U1, false, true, false, false, true, true).is_empty());
    let w = advisory_notes("", true, true, false, false, true, false);
    assert_eq!(w, vec!["csift: warning: empty pattern with no category/time/turn/session filter matches every exchange in scope — this may emit a lot.".to_string()]);
    assert!(advisory_notes("", true, false, false, false, true, false).is_empty());
}
