use csift::model::{Block, Content, Message, Record, ToolInput, Usage};
use csift::range::parse_range_spec;
use csift::stats::lines::StatsLine;
use csift::stats::render::{by_count, census_line_text, duration_label, footer_lines, malformed_note_text, session_lines,
    total_lines};
use csift::stats::scope::{merged_counts, merged_tokens, scope_rows, scope_split, Census};
use csift::stats::session::{line_count, stats_one_file, ChainFacts, SessionStats};
use csift::stats::tokens::TokenSums;
use csift::time_window::TimeWindow;

const PATH: &str = "/p/-Enc/0a1b2c3d-4e5f-4a6b-8c7d-9e0f1a2b3c4d.jsonl";

fn bare(kind: &str, ts: Option<&str>) -> Record {
    Record {
        record_type: Some(kind.to_string()),
        subtype: None,
        uuid: None,
        parent_uuid: None,
        timestamp: ts.map(str::to_string),
        is_meta: None,
        is_compact_summary: None,
        cwd: None,
        version: None,
        git_branch: None,
        session_id: None,
        message: None,
        content: None,
        compact_metadata: None,
        hook_context: None,
    }
}

fn user(ts: &str, text: &str) -> Record {
    let mut r = bare("user", Some(ts));
    r.message = Some(Message {
        role: Some("user".to_string()),
        content: Some(Content::Text(text.to_string())),
        model: None,
        id: None,
        usage: None,
    });
    r
}

fn usage(input: u64, output: u64) -> Usage {
    Usage { input_tokens: Some(input), output_tokens: Some(output), cache_read_input_tokens: None, cache_creation_input_tokens: None }
}

fn agent(ts: &str, id: Option<&str>, model: &str, u: Option<Usage>, blocks: Vec<Block>) -> Record {
    let mut r = bare("assistant", Some(ts));
    r.message = Some(Message {
        role: Some("assistant".to_string()),
        content: Some(Content::Blocks(blocks)),
        model: Some(model.to_string()),
        id: id.map(str::to_string),
        usage: u,
    });
    r
}

fn tool(name: Option<&str>) -> Block {
    Block::ToolUse {
        id: Some("toolu_1".to_string()),
        name: name.map(str::to_string),
        input: Some(ToolInput { json: "{}".to_string(), type_field: None, message_type: None, command: None, description: None, subagent_type: None, name: None, dangerous_command: false }),
    }
}

fn thinking(tag: Option<&str>) -> Block {
    Block::Thinking { thinking: "hmm".to_string(), tag: tag.map(str::to_string) }
}

fn count(e: &[(String, usize)], k: &str) -> Option<usize> {
    e.iter().find(|p| p.0 == k).map(|p| p.1)
}

/// A small transcript: a user turn, two per-block records of one API message (same id,
/// same usage), an id-less reply, a narration block, an attachment line and a spine row.
fn fixture() -> Vec<StatsLine> {
    let mut summary = user("2026-06-07T05:10:00.000Z", "summary");
    summary.is_compact_summary = Some(true);
    vec![
        StatsLine::Record(user("2026-06-07T05:00:00.000Z", "hello")),
        StatsLine::Record(agent("2026-06-07T05:00:01.000Z", Some("msg_1"), "model-a", Some(usage(10, 5)),
            vec![thinking(Some("thinking")), tool(Some("Bash"))])),
        StatsLine::Record(agent("2026-06-07T05:00:02.000Z", Some("msg_1"), "model-a", Some(usage(10, 5)),
            vec![tool(Some("Bash")), tool(None)])),
        StatsLine::Other("attachment".to_string(), None),
        StatsLine::Other("system".to_string(), Some(bare("system", Some("2026-06-07T09:00:00.000Z")))),
        StatsLine::Record(agent("2026-06-07T05:00:03.000Z", None, "model-b", Some(usage(1, 2)),
            vec![thinking(Some("narration")), thinking(Some("mystery"))])),
        StatsLine::Record(summary),
    ]
}

fn run(kept: &Vec<StatsLine>, window: &TimeWindow, turn: Option<&str>) -> SessionStats {
    // Rows: records and the spine row, in file order.
    let n = 6;
    let mut opens = vec![false; n];
    opens[0] = true;
    opens[5] = true;
    let mut skip = vec![false; n];
    skip[3] = true;
    let range = turn.map(|t| parse_range_spec(t, "--turn", false).unwrap());
    let chain = ChainFacts { drafts: 1, rewound_turns: 2, replay_copies: 3 };
    stats_one_file(PATH, b"one\ntwo\nthree", kept, 1, chain, &opens, &skip, window, range)
}

#[test]
fn stats_counts_records_tools_tokens_and_span() {
    let kept = fixture();
    let s = run(&kept, &TimeWindow::unbounded(), None);
    assert_eq!(s.session_id, "0a1b2c3d-4e5f-4a6b-8c7d-9e0f1a2b3c4d");
    assert!(!s.is_subagent);
    assert_eq!(s.parent_session_id, s.session_id);
    assert_eq!(s.lines, 3);
    assert_eq!(s.skipped_lines, 1);
    assert_eq!(s.user_records, 2);
    assert_eq!(s.assistant_records, 3);
    assert_eq!(s.compactions, 1);
    assert_eq!(s.turns, 2);
    assert_eq!(s.first_utc.as_deref(), Some("2026-06-07T05:00:00.000Z"));
    // The spine row's later timestamp never widens the span.
    assert_eq!(s.last_utc.as_deref(), Some("2026-06-07T05:10:00.000Z"));
    assert_eq!(s.tools, vec![("(unnamed)".to_string(), 1), ("Bash".to_string(), 2)]);
    assert_eq!(s.narration_blocks, vec![("model-b".to_string(), 1)]);
    assert_eq!(s.unknown_thinking_tags, 1);
    // msg_1's usage counts once; the id-less reply counts on its own.
    assert_eq!(s.tokens, vec![
        ("model-a".to_string(), TokenSums { input: 10, output: 5, cache_read: 0, cache_creation: 0 }),
        ("model-b".to_string(), TokenSums { input: 1, output: 2, cache_read: 0, cache_creation: 0 }),
    ]);
    assert_eq!(s.abandoned_turns, 3);
    assert_eq!(s.rewound_turns, 2);
    assert_eq!(s.replay_copies, 3);
}

#[test]
fn stats_line_types_census_every_kept_line() {
    let kept = fixture();
    let s = run(&kept, &TimeWindow::from_args(Some("2030-01-01T00:00:00Z"), None).unwrap(), None);
    // Nothing falls in the window, but the line-type census is a whole-file fact.
    assert_eq!(s.user_records, 0);
    assert_eq!(s.turns, 0);
    assert_eq!(s.first_utc, None);
    assert!(s.tokens.is_empty());
    assert_eq!(s.line_types, vec![
        ("assistant".to_string(), 3),
        ("attachment".to_string(), 1),
        ("system".to_string(), 1),
        ("user".to_string(), 2),
    ]);
}

#[test]
fn stats_usage_takes_the_per_field_peak_of_one_message() {
    let kept = vec![
        StatsLine::Record(agent("2026-06-07T05:00:01.000Z", Some("m"), "x", Some(usage(7, 0)), vec![])),
        // A replayed copy with zeroed usage cannot lower the count.
        StatsLine::Record(agent("2026-06-07T05:00:02.000Z", Some("m"), "x", Some(usage(0, 0)), vec![])),
        StatsLine::Record(agent("2026-06-07T05:00:03.000Z", Some("m"), "x", Some(usage(3, 9)), vec![])),
        // An empty id counts on its own.
        StatsLine::Record(agent("2026-06-07T05:00:04.000Z", Some(""), "x", Some(usage(100, 0)), vec![])),
    ];
    let s = stats_one_file(PATH, b"", &kept, 0, ChainFacts { drafts: 0, rewound_turns: 0, replay_copies: 0 },
        &[false; 4], &[false; 4], &TimeWindow::unbounded(), None);
    assert_eq!(s.tokens, vec![("x".to_string(), TokenSums { input: 107, output: 9, cache_read: 0, cache_creation: 0 })]);
    assert_eq!(s.lines, 0);
    assert_eq!(s.turns, 1);
}

#[test]
fn stats_turn_range_selects_records_of_the_chosen_turns() {
    let kept = fixture();
    let s = run(&kept, &TimeWindow::unbounded(), Some("1"));
    // Turn 1 holds only the compaction summary.
    assert_eq!(s.user_records, 1);
    assert_eq!(s.assistant_records, 0);
    assert_eq!(s.compactions, 1);
    assert_eq!(s.turns, 1);
    assert_eq!(s.first_utc.as_deref(), Some("2026-06-07T05:10:00.000Z"));
}

#[test]
fn time_window_bounds_and_untimed_records() {
    let w = TimeWindow::from_args(Some("2026-06-07T06:00:00Z"), Some("2026-06-07T07:00:00Z")).unwrap();
    assert!(!w.contains(None));
    assert!(!w.contains(Some("2026-06-07T05:59:59Z")));
    assert!(w.contains(Some("2026-06-07T06:00:00Z")));
    assert!(w.contains(Some("2026-06-07T07:00:00Z")));
    assert!(!w.contains(Some("2026-06-07T07:00:01Z")));
    assert!(!w.contains(Some("not a time")));
    assert!(TimeWindow::unbounded().contains(None));
    assert_eq!(TimeWindow::from_args(Some("yesterday"), None).unwrap_err(), "invalid --since timestamp: yesterday");
    assert_eq!(TimeWindow::from_args(None, Some("soon")).unwrap_err(), "invalid --until timestamp: soon");
}

#[test]
fn line_count_counts_a_torn_final_fragment() {
    assert_eq!(line_count(b""), 0);
    assert_eq!(line_count(b"a\n"), 1);
    assert_eq!(line_count(b"a\nb"), 2);
    assert_eq!(line_count(b"\n\n\n"), 3);
}

fn row(id: &str, last: Option<&str>, sub: bool) -> SessionStats {
    SessionStats {
        session_id: id.to_string(),
        is_subagent: sub,
        parent_session_id: id.to_string(),
        lines: 10,
        user_records: 1,
        assistant_records: 2,
        turns: 1,
        tools: vec![("Bash".to_string(), 2), ("Read".to_string(), 1)],
        tokens: vec![("m".to_string(), TokenSums { input: 1, output: 2, cache_read: 3, cache_creation: 4 })],
        first_utc: last.map(str::to_string),
        last_utc: last.map(str::to_string),
        compactions: 0,
        skipped_lines: 0,
        line_types: vec![("assistant".to_string(), 2), ("user".to_string(), 1)],
        narration_blocks: vec![],
        unknown_thinking_tags: 0,
        abandoned_turns: 0,
        rewound_turns: 0,
        replay_copies: 0,
    }
}

fn ids(rows: &[SessionStats]) -> Vec<&str> {
    rows.iter().map(|r| r.session_id.as_str()).collect()
}

#[test]
fn scope_rows_sort_by_id_and_cap_keeps_most_recent() {
    let rows = vec![
        row("c", Some("2026-01-03T00:00:00Z"), false),
        row("a", Some("2026-01-01T00:00:00Z"), false),
        row("d", None, true),
        row("b", Some("2026-01-04T00:00:00Z"), false),
    ];
    let (all, dropped) = scope_rows(rows.clone(), None);
    assert_eq!(ids(&all), vec!["a", "b", "c", "d"]);
    assert_eq!(dropped, 0);
    let (zero, dropped0) = scope_rows(rows.clone(), Some(0));
    assert_eq!(ids(&zero), vec!["a", "b", "c", "d"]);
    assert_eq!(dropped0, 0);
    let (capped, dropped2) = scope_rows(rows.clone(), Some(2));
    assert_eq!(ids(&capped), vec!["b", "c"]);
    assert_eq!(dropped2, 2);
    let (capped3, dropped3) = scope_rows(rows, Some(3));
    // A session with no timestamp is the least recent.
    assert_eq!(ids(&capped3), vec!["a", "b", "c"]);
    assert_eq!(dropped3, 1);
    assert_eq!(scope_split(&capped3), (3, 0));
}

#[test]
fn merged_totals_add_rows_without_cross_file_dedupe() {
    let mut r2 = row("b", None, true);
    r2.tools = vec![("Bash".to_string(), 5), ("Edit".to_string(), 1)];
    let rows = vec![row("a", None, false), r2];
    assert_eq!(merged_counts(&rows, Census::Tools), vec![
        ("Bash".to_string(), 7), ("Edit".to_string(), 1), ("Read".to_string(), 1),
    ]);
    assert_eq!(merged_counts(&rows, Census::LineTypes), vec![("assistant".to_string(), 4), ("user".to_string(), 2)]);
    assert!(merged_counts(&rows, Census::Narration).is_empty());
    assert_eq!(merged_tokens(&rows), vec![
        ("m".to_string(), TokenSums { input: 2, output: 4, cache_read: 6, cache_creation: 8 }),
    ]);
    assert_eq!(scope_split(&rows), (1, 1));
}

#[test]
fn census_prints_count_descending_then_by_key() {
    let e = vec![("a".to_string(), 1), ("b".to_string(), 3), ("c".to_string(), 1), ("d".to_string(), 3)];
    let sorted = by_count(&e);
    assert_eq!(census_line_text(&sorted), "b×3 · d×3 · a×1 · c×1");
    assert_eq!(census_line_text(&vec![]), "");
}

#[test]
fn session_block_lines() {
    let mut r = row("s1", Some("2026-06-07T05:03:20.000Z"), true);
    r.parent_session_id = "p0".to_string();
    r.first_utc = Some("2026-06-07T05:00:00.000Z".to_string());
    r.abandoned_turns = 2;
    r.rewound_turns = 1;
    r.unknown_thinking_tags = 1;
    r.narration_blocks = vec![("m".to_string(), 4)];
    r.skipped_lines = 1;
    let lines = session_lines(&r, "FIRST", "LAST");
    assert_eq!(lines, vec![
        "SUBAGENT s1  ·  parent SESSION p0",
        "  lines 10 · records 1 user + 2 assistant · turns 1 · compactions 0",
        "  types  assistant×2 · user×1",
        "  chain  abandoned turns 2 (1 rewound) · replay copy lines 0  (whole-file facts, outside `turns`)",
        "  span   FIRST  →  LAST  (3m20s)",
        "  tokens m: in 1 · out 2 · cache-read 3 · cache-write 4",
        "  narration blocks m×4  (API summaries, agent.thinking.narration; token split unavailable)",
        "  unknown thinking-signature tags 1  (neither thinking nor narration - a new API tag value)",
        "  tools  Bash×2 · Read×1",
        "  (1 malformed line skipped)",
        "",
    ]);
    let plain = session_lines(&row("s2", None, false), "-", "-");
    assert_eq!(plain, vec![
        "SESSION s2",
        "  lines 10 · records 1 user + 2 assistant · turns 1 · compactions 0",
        "  types  assistant×2 · user×1",
        "  tokens m: in 1 · out 2 · cache-read 3 · cache-write 4",
        "  tools  Bash×2 · Read×1",
        "",
    ]);
}

#[test]
fn total_block_lines_cap_the_tool_list() {
    let mut a = row("a", None, false);
    a.tools = (0..17).map(|i| (format!("t{i:02}"), 20 - i)).collect();
    a.skipped_lines = 2;
    let b = row("b", None, true);
    let rows = vec![a, b];
    let types = merged_counts(&rows, Census::LineTypes);
    let tools = merged_counts(&rows, Census::Tools);
    let narration = merged_counts(&rows, Census::Narration);
    let tokens = merged_tokens(&rows);
    let lines = total_lines(&rows, 1, 1, &types, &tools, &narration, &tokens);
    assert_eq!(lines[0], "TOTAL  2 sessions (1 top-level + 1 subagent)");
    assert_eq!(lines[1], "  types  assistant×4 · user×2");
    assert_eq!(lines[2], "  records 2 user + 4 assistant · turns 2 · compactions 0");
    assert_eq!(lines[3], "  tokens m: in 2 · out 4 · cache-read 6 · cache-write 8");
    assert!(lines[4].starts_with("  tools  t00×20 · t01×19 · "));
    assert!(lines[4].ends_with(" · (+4 more tools)"));
    assert_eq!(lines.len(), 5);
    let single = total_lines(&rows[..1].to_vec(), 1, 0, &types, &tools, &narration, &tokens);
    assert!(single.is_empty());
    assert_eq!(footer_lines(&rows, 3), vec![
        "(2 malformed lines skipped)".to_string(),
        "… (+3 more session(s) not shown — the most recently active are aggregated above; narrow with a target or --since, or raise --max-count)".to_string(),
    ]);
    assert!(footer_lines(&rows[1..].to_vec(), 0).is_empty());
}

#[test]
fn stats_duration_label_and_malformed_note() {
    assert_eq!(duration_label("2026-06-07T05:00:00.000Z", "2026-06-07T05:03:20.000Z"), "3m20s");
    assert_eq!(duration_label("2026-06-07T05:00:00Z", "2026-06-07T07:05:00Z"), "2h05m");
    assert_eq!(duration_label("2026-06-07T05:00:10Z", "2026-06-07T05:00:00Z"), "0s");
    assert_eq!(duration_label("nope", "2026-06-07T05:00:00Z"), "-");
    assert_eq!(malformed_note_text(1), "1 malformed line skipped");
    assert_eq!(malformed_note_text(4), "4 malformed lines skipped");
}
