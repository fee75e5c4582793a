use csift::durations::fmt_ms;
use csift::labels::{role_glyph, sibling_cap, Class};
use csift::model::{Block, Content, Message, Record};
use csift::search::excerpt::{auq_answer_text, match_excerpt, parse_turn_range, truncate_excerpt};
use csift::search::types::EXCERPT_MAX;
use csift::timefmt::format_timestamp;

fn user_record(content: Content) -> Record {
    Record {
        record_type: Some("user".to_string()),
        subtype: None,
        uuid: None,
        parent_uuid: None,
        timestamp: None,
        is_meta: None,
        is_compact_summary: None,
        cwd: None,
        version: None,
        git_branch: None,
        session_id: None,
        message: Some(Message {
            role: Some("user".to_string()),
            content: Some(content),
            model: None,
            id: None,
            usage: None,
        }),
        content: None,
        compact_metadata: None,
        hook_context: None,
    }
}

fn tool_result(id: &str, text: &str) -> Block {
    Block::ToolResult {
        tool_use_id: Some(id.to_string()),
        content: Some(text.to_string()),
        is_error: None,
    }
}

#[test]
fn turn_range_parsing() {
    assert_eq!(parse_turn_range("10..20").unwrap().resolve(100, false), (10, 20));
    assert_eq!(parse_turn_range("0..0").unwrap().resolve(100, false), (0, 0));
    assert!(parse_turn_range("20..10").is_err());
    assert!(parse_turn_range("notarange").is_err());
    assert!(parse_turn_range("a..b").is_err());
}

#[test]
fn parse_turn_range_equal_bounds_ok() {
    assert_eq!(parse_turn_range("5..5").unwrap().resolve(100, false), (5, 5));
}

#[test]
fn auq_answer_text_none_when_no_blocks_or_no_marker() {
    let r = user_record(Content::Text("plain string".to_string()));
    assert!(auq_answer_text(&r).is_none());
    let r2 = user_record(Content::Blocks(vec![tool_result("x", "just normal output")]));
    assert!(auq_answer_text(&r2).is_none());
}

#[test]
fn auq_answer_text_skips_non_tool_result_blocks() {
    let r = user_record(Content::Blocks(vec![
        Block::Other,
        tool_result("x", "User has answered your questions: \"q\"=\"the picked one\"."),
    ]));
    assert_eq!(
        auq_answer_text(&r).as_deref(),
        Some("User has answered your questions: \"q\"=\"the picked one\".")
    );
}

#[test]
fn part03_truncate_excerpt_long_and_short() {
    assert_eq!(truncate_excerpt("short"), "short");
    let s = "y".repeat(EXCERPT_MAX + 3);
    let out = truncate_excerpt(&s);
    assert!(out.ends_with("… (+3 chars)"), "got: {out}");
}

#[test]
fn render_truncate_excerpt_long_and_short() {
    assert_eq!(truncate_excerpt("short"), "short");
    let s = "y".repeat(EXCERPT_MAX + 3);
    let out = truncate_excerpt(&s);
    assert!(out.ends_with("… (+3 chars)"), "got: {out}");
}

fn full_budget_case() {
    let n = EXCERPT_MAX + 200;
    let text = "🤖".repeat(n);
    let (capped, capped_truncated) = match_excerpt(&text, None, EXCERPT_MAX);
    assert!(capped.contains("… (+"), "default budget truncates: {capped}");
    assert!(capped_truncated, "default budget reports truncation");
    let (full, full_truncated) = match_excerpt(&text, None, usize::MAX);
    assert!(!full.contains("… (+"), "full budget has no truncation marker");
    assert!(!full_truncated, "--no-truncate's usize::MAX budget never truncates");
    assert_eq!(full.chars().count(), n, "full text length preserved");
}

#[test]
fn part03_match_excerpt_full_budget_emits_whole_message() {
    full_budget_case();
}

#[test]
fn render_match_excerpt_full_budget_emits_whole_message() {
    full_budget_case();
}

fn sibling_policy_case() {
    assert_eq!(sibling_cap(Class::UserMessage), None);
    assert_eq!(sibling_cap(Class::AgentMessage), None);
    assert_eq!(sibling_cap(Class::CommInbox), None);
    assert_eq!(sibling_cap(Class::AgentThinking), Some(2));
    assert_eq!(sibling_cap(Class::AgentToolUse), Some(3));
    assert_eq!(sibling_cap(Class::AgentToolResult), Some(3));
    assert_eq!(sibling_cap(Class::CommandStdout), Some(2));
}

#[test]
fn part03_sibling_cap_policy_is_fixed_and_message_classes_uncapped() {
    sibling_policy_case();
}

#[test]
fn render_sibling_cap_policy_is_fixed_and_message_classes_uncapped() {
    sibling_policy_case();
}

#[test]
fn fmt_ms_picks_the_top_two_units() {
    assert_eq!(fmt_ms(0), "0s");
    assert_eq!(fmt_ms(499), "0s");
    assert_eq!(fmt_ms(999), "1s");
    assert_eq!(fmt_ms(12_000), "12s");
    assert_eq!(fmt_ms(64_911), "1m 5s");
    assert_eq!(fmt_ms(3_600_000), "1h 0m");
    assert_eq!(fmt_ms(7_380_000), "2h 3m");
    assert_eq!(fmt_ms(926_676_611), "10d 17h");
}

#[test]
fn class_path_and_role_glyph_cover_every_leaf() {
    for c in Class::all() {
        assert!(!c.path().is_empty());
        let g = role_glyph(c);
        assert!(matches!(g, '◂' | '▸' | '⚙'), "{} -> {g}", c.path());
    }
    assert_eq!(role_glyph(Class::UserMessage), '◂');
    assert_eq!(role_glyph(Class::AgentMessage), '▸');
    assert_eq!(role_glyph(Class::CommInbox), '▸');
    assert_eq!(role_glyph(Class::NotificationWorkflow), '⚙');
}

#[test]
fn truncate_short_excerpt_unchanged() {
    assert_eq!(csift::session::truncate_excerpt("hello"), "hello");
}

#[test]
fn truncate_long_excerpt_marks_dropped_count() {
    let s = "x".repeat(csift::session::EXCERPT_MAX + 5);
    let out = csift::session::truncate_excerpt(&s);
    assert!(out.ends_with("… (+5 chars)"), "got: {out}");
    assert!(out.starts_with(&"x".repeat(csift::session::EXCERPT_MAX)));
}

#[test]
fn truncate_counts_chars_not_bytes() {
    let s = "🛠".repeat(csift::session::EXCERPT_MAX + 2);
    let out = csift::session::truncate_excerpt(&s);
    assert!(out.ends_with("… (+2 chars)"), "got: {out}");
}

#[test]
fn format_timestamp_missing_is_em_dash() {
    assert_eq!(format_timestamp(None), "—");
}

#[test]
fn format_timestamp_unparseable_surfaces_raw() {
    let out = format_timestamp(Some("not-a-time"));
    assert!(out.contains("not-a-time"));
    assert!(out.contains("unparsed"));
}

#[test]
fn format_timestamp_parseable_shows_the_utc_offset_marker() {
    let out = format_timestamp(Some("2026-06-07T05:48:22.880Z"));
    assert!(out.contains("(UTC"), "marker missing: {out}");
    assert!(!out.contains("2026-06-07T05:48:22.880Z"), "the raw copy is gone: {out}");
}

#[test]
fn format_timestamp_parseable_has_the_local_stamp_shape() {
    let out = format_timestamp(Some("2026-06-07T05:48:22.880Z"));
    let chars: Vec<char> = out.chars().collect();
    assert!(out.starts_with("2026-06-0"), "{out}");
    assert_eq!(chars[4], '-');
    assert_eq!(chars[7], '-');
    assert_eq!(chars[10], ' ');
    assert_eq!(chars[13], ':');
    assert_eq!(chars[16], ':');
    assert_eq!(chars[19], ' ');
    assert!(out.ends_with(')'), "{out}");
    let tail = &out[out.rfind("(UTC").expect("marker") + 4..out.len() - 1];
    assert!(tail.starts_with('+') || tail.starts_with('-'), "{out}");
    assert_eq!(tail.as_bytes()[3], b':');
}

#[test]
fn match_excerpt_centers_a_deep_match_with_markers_on_both_sides() {
    let text = format!("{}needle{}", "a".repeat(800), "b".repeat(800));
    let start = 800;
    let (ex, truncated) = match_excerpt(&text, Some((start, start + 6)), EXCERPT_MAX);
    assert!(ex.contains("needle"), "{ex}");
    assert!(ex.starts_with('…'), "{ex}");
    assert!(ex.ends_with("… (+506 chars)"), "{ex}");
    assert!(truncated);
}

#[test]
fn match_excerpt_short_text_is_whole_and_not_truncated() {
    let (ex, truncated) = match_excerpt("a short  hit\nhere", Some((8, 11)), EXCERPT_MAX);
    assert_eq!(ex, "a short hit here");
    assert!(!truncated);
}

#[test]
fn match_excerpt_off_boundary_span_falls_back_to_the_head() {
    let text = "🤖".repeat(EXCERPT_MAX + 10);
    let (ex, truncated) = match_excerpt(&text, Some((1, 5)), EXCERPT_MAX);
    assert!(!ex.starts_with('…'));
    assert!(ex.ends_with("… (+10 chars)"), "{ex}");
    assert!(truncated);
}
