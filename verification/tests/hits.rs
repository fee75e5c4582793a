use csift::search::scan::{file_gate_decision, synth_texts_match, MarkerCheck};
use csift::labels::Class;
use csift::model::{Block, Content, Message, Record, ToolInput};
use csift::search::excerpt::match_excerpt;
use csift::search::filter::LabelFilter;
use csift::search::hits::{collect_record_hits, unlabeled_hit, RecordView};
use csift::search::siblings::collect_turn_siblings;
use csift::search::matcher::{build_matcher, MarkerSelection, Matcher};
use csift::search::reconstruct::collect_turn_hits;
use csift::search::record_text::{render_tool_use, RecordTexts};
use csift::search::render::render_label;
use csift::search::rows::Kept;
use csift::search::types::{Hit, Pairing, EXCERPT_MAX};
use csift::time_window::TimeWindow;

fn sel() -> MarkerSelection {
    MarkerSelection {
        compaction_boundary: false,
        turn_duration: false,
        stop_hooks: false,
        snapshot: false,
        resolve_persisted: false,
    }
}

fn matcher(p: &str) -> Matcher {
    build_matcher(p, false, false, sel()).unwrap()
}

fn record(kind: &str, ts: Option<&str>, content: Option<Content>) -> Record {
    Record {
        record_type: Some(kind.to_string()),
        subtype: None,
        uuid: None,
        parent_uuid: None,
        timestamp: ts.map(str::to_string),
        is_meta: None,
        is_compact_summary: None,
        cwd: None,
        version: None,
        git_branch: None,
        session_id: None,
        message: content.map(|c| Message {
            role: Some(kind.to_string()),
            content: Some(c),
            model: None,
            id: None,
            usage: None,
        }),
        content: None,
        compact_metadata: None,
        hook_context: None,
    }
}

fn view(labels: Vec<Class>) -> RecordView {
    RecordView {
        labels,
        texts: RecordTexts { automation: None, reconstructed: None, raw: None },
        user_dual_text: None,
        elicitation: None,
        direction: None,
        persisted: None,
    }
}

fn filter(sel: &str) -> LabelFilter {
    LabelFilter::new(&[sel.to_string()], &[])
}

fn hits_of(r: &Record, v: &RecordView, f: &LabelFilter, m: &Matcher) -> Vec<Hit> {
    let mut hits = Vec::new();
    collect_record_hits(r, v, f, m, EXCERPT_MAX, &Vec::new(), &mut hits);
    hits
}

fn text(t: &str) -> Block {
    Block::Text { text: t.to_string() }
}

fn tool_result(t: &str) -> Block {
    Block::ToolResult { tool_use_id: Some("x".to_string()), content: Some(t.to_string()), is_error: None }
}

fn ask_user_question() -> Block {
    Block::ToolUse {
        id: Some("k1".to_string()),
        name: Some("AskUserQuestion".to_string()),
        input: Some(ToolInput {
            json: r#"{"questions":[{"question":"pick wibblewobble?"}]}"#.to_string(),
            type_field: None,
            message_type: None,
            command: None,
            description: None,
            subagent_type: None,
            name: None,
            dangerous_command: false,
        }),
    }
}

#[test]
fn synth_marker_keeps_line_and_file_matchable_without_literal() {
    let m = matcher("subagent");
    assert!(m.prefilter.is_some());
    let line = br#"{"type":"user","message":{"role":"user","content":"<task-notification><task-id>t1</task-id><summary>Agent \"probe\" completed</summary></task-notification>"}}"#;
    assert!(m.line_may_match(line));
    assert!(m.file_may_match(line));
    let rej = br#"{"type":"user","message":{"role":"user","content":[{"type":"tool_result","tool_use_id":"x","content":"To tell you how to proceed, the user said:\ngo"}]}}"#;
    let m_plan = matcher("plan");
    assert!(m_plan.line_may_match(rej));
    assert!(!m.line_may_match(b"{\"type\":\"user\"} nothing relevant"));
    assert!(!m.file_may_match(b"a whole file with nothing relevant"));
}

#[test]
fn resolve_persisted_flag_adds_pointer_markers() {
    let mut s = sel();
    s.resolve_persisted = true;
    let m = build_matcher("zzguarded", false, false, s).unwrap();
    let line = br#"{"toolUseResult":{"persistedOutputPath":"/tmp/x.txt"},"message":{"role":"user","content":[{"type":"tool_result","tool_use_id":"t","content":"Full output saved to: /tmp/x.txt"}]}}"#;
    assert!(m.line_may_match(line));
    let m2 = matcher("zzguarded");
    assert!(!m2.line_may_match(line));
}

#[test]
fn collect_hits_thinking_category() {
    let r = record("assistant", Some("2026-06-07T05:00:00.000Z"), Some(Content::Blocks(vec![
        Block::Thinking { thinking: "the carry holds a partial line".to_string(), tag: None },
        text("done"),
    ])));
    let hits = hits_of(&r, &view(vec![Class::AgentThinking, Class::AgentMessage]), &filter("agent.thinking"), &matcher("carry"));
    assert_eq!(hits.len(), 1);
    assert_eq!(hits[0].class, Some(Class::AgentThinking));
    assert!(hits[0].excerpt.contains("carry"));
    assert_eq!(hits[0].timestamp_utc.as_deref(), Some("2026-06-07T05:00:00.000Z"));
}

#[test]
fn collect_hits_agent_text_only_from_assistant() {
    let r = record("assistant", None, Some(Content::Blocks(vec![text("the answer is foo")])));
    let hits = hits_of(&r, &view(vec![Class::AgentMessage]), &filter("agent.message"), &matcher("foo"));
    assert_eq!(hits.len(), 1);
    assert_eq!(hits[0].class, Some(Class::AgentMessage));
}

#[test]
fn collect_hits_tool_use_matches_name_and_input() {
    let r = record("assistant", None, Some(Content::Blocks(vec![Block::ToolUse {
        id: Some("t1".to_string()),
        name: Some("AskUserQuestion".to_string()),
        input: Some(ToolInput {
            json: r#"{"questions":[{"question":"which?"}]}"#.to_string(),
            type_field: None,
            message_type: None,
            command: None,
            description: None,
            subagent_type: None,
            name: None,
            dangerous_command: false,
        }),
    }])));
    let hits = hits_of(&r, &view(vec![Class::AgentToolUse]), &filter("agent.tool.use"), &matcher("AskUserQuestion"));
    assert_eq!(hits.len(), 1);
    assert_eq!(hits[0].tool_name.as_deref(), Some("AskUserQuestion"));
}

#[test]
fn collect_hits_mcp_elicitation_system_marker() {
    // A system marker with no tool_use block: its top-level content is the text, named by
    // its kind.
    let mut r = record("system", Some("2026-06-27T02:00:00.000Z"), None);
    r.subtype = Some("mcp_elicitation".to_string());
    let content = "MCP elicitation [gdrive] (url): authorize wibblewobble access";
    r.content = Some(content.to_string());
    let mut v = view(vec![Class::AgentToolUse]);
    v.elicitation = Some((content.to_string(), Some("mcp-elicitation".to_string())));
    let hits = hits_of(&r, &v, &filter("agent.tool.use"), &matcher("wibblewobble"));
    assert_eq!(hits.len(), 1, "MCP system marker must produce exactly one hit");
    assert_eq!(hits[0].class, Some(Class::AgentToolUse));
    assert_eq!(hits[0].tool_name.as_deref(), Some("mcp-elicitation"));
    assert!(hits[0].excerpt.contains("wibblewobble"));
}

#[test]
fn collect_hits_auq_marker_does_not_double_emit() {
    // A marker that carries a tool_use block matches through the block only.
    let r = record("assistant", Some("2026-06-27T01:00:00.000Z"), Some(Content::Blocks(vec![ask_user_question()])));
    let hits = hits_of(&r, &view(vec![Class::AgentToolUse]), &filter("agent.tool.use"), &matcher("wibblewobble"));
    assert_eq!(hits.len(), 1, "AQ marker must not double-emit");
    assert_eq!(hits[0].tool_name.as_deref(), Some("AskUserQuestion"));
}

#[test]
fn collect_hits_auq_answer_under_user() {
    let answer = "User has answered your questions: \"Q\"=\"chosen\". You can now continue.";
    let r = record("user", None, Some(Content::Blocks(vec![tool_result(answer)])));
    let mut v = view(vec![Class::UserAnswer, Class::AgentToolResult]);
    v.user_dual_text = Some(answer.to_string());
    let hits = hits_of(&r, &v, &filter("user"), &matcher("chosen"));
    assert_eq!(hits.len(), 1);
    assert_eq!(hits[0].class, Some(Class::UserAnswer));
}

#[test]
fn tool_result_carrier_not_a_user_hit_when_plain() {
    let r = record("user", None, Some(Content::Blocks(vec![tool_result("plain output here")])));
    let v = view(vec![Class::AgentToolResult]);
    let m = matcher("output");
    assert_eq!(hits_of(&r, &v, &filter("user"), &m).len(), 0);
    let hits2 = hits_of(&r, &v, &filter("agent.tool.result"), &m);
    assert_eq!(hits2.len(), 1);
    assert_eq!(hits2[0].class, Some(Class::AgentToolResult));
}

#[test]
fn auq_answer_under_user_present_but_pattern_does_not_match() {
    let answer = "User has answered your questions: \"q\"=\"alpha\".";
    let r = record("user", None, Some(Content::Blocks(vec![tool_result(answer)])));
    let mut v = view(vec![Class::UserAnswer, Class::AgentToolResult]);
    v.user_dual_text = Some(answer.to_string());
    assert!(hits_of(&r, &v, &filter("user"), &matcher("zzzznomatch")).is_empty(), "non-matching AUQ answer yields no user hit");
}

#[test]
fn collect_record_hits_resolve_persisted_with_no_pointer_keeps_inline() {
    let r = record("user", None, Some(Content::Blocks(vec![tool_result("plain inline output with token zzinline")])));
    let hits = hits_of(&r, &view(vec![Class::AgentToolResult]), &filter("agent.tool.result"), &matcher("zzinline"));
    assert_eq!(hits.len(), 1, "inline text still matches when there is no pointer");
    assert_eq!(hits[0].class, Some(Class::AgentToolResult));
}

#[test]
fn agent_text_block_only_from_assistant_not_user_text_block() {
    let r = record("user", None, Some(Content::Blocks(vec![text("user text foo")])));
    let hits = hits_of(&r, &view(vec![Class::UserMessage, Class::AgentMessage]), &filter("agent.message"), &matcher("foo"));
    assert!(hits.is_empty(), "a user text block is not an agent hit");
}

#[test]
fn collect_record_hits_can_hit_false_is_skipped_via_collect_turn_hits() {
    let m = matcher("Carry");
    let raw = br#"{"type":"assistant","message":{"role":"assistant","content":[{"type":"text","text":"nothing relevant"}]}}"#;
    let kept = Kept {
        rec: record("assistant", None, Some(Content::Blocks(vec![text("nothing relevant")]))),
        can_hit: m.line_may_match(raw),
        line_no: 1,
        from_sidecar: false,
    };
    assert!(!kept.can_hit);
    let records = vec![kept];
    let views = vec![view(vec![Class::AgentMessage])];
    let (hits, hit_idxs) = collect_turn_hits(&vec![0], &records, &views, &LabelFilter::all(), &m, EXCERPT_MAX,
        &Vec::new(), None, &TimeWindow::unbounded());
    assert!(hits.is_empty(), "a can_hit=false record yields no hits");
    assert!(hit_idxs.is_empty(), "no record produced a hit");
}

#[test]
fn collect_turn_hits_excludes_record_outside_time_window() {
    let m = matcher("carry");
    let raw = br#"{"type":"assistant","timestamp":"2026-06-07T05:00:00.000Z","message":{"role":"assistant","content":[{"type":"text","text":"the carry"}]}}"#;
    let kept = Kept {
        rec: record("assistant", Some("2026-06-07T05:00:00.000Z"), Some(Content::Blocks(vec![text("the carry")]))),
        can_hit: m.line_may_match(raw),
        line_no: 1,
        from_sidecar: false,
    };
    let records = vec![kept];
    let views = vec![view(vec![Class::AgentMessage])];
    let tw = TimeWindow::from_args(Some("2026-06-07T06:00:00Z"), None).unwrap();
    assert!(collect_turn_hits(&vec![0], &records, &views, &LabelFilter::all(), &m, EXCERPT_MAX, &Vec::new(), None, &tw)
        .0
        .is_empty());
    let tw2 = TimeWindow::unbounded();
    assert!(!collect_turn_hits(&vec![0], &records, &views, &LabelFilter::all(), &m, EXCERPT_MAX, &Vec::new(), None, &tw2)
        .0
        .is_empty());
}

#[test]
fn match_excerpt_centers_on_a_deep_match() {
    let needle = "🤖🎉✅🚀🌟";
    let text = format!("{}{needle}{}", "🔵".repeat(800), "🟥".repeat(800));
    let m = matcher(needle);
    let span = m.locate(&text).expect("matches").expect("has a span");
    let (ex, truncated) = match_excerpt(&text, Some(span), EXCERPT_MAX);
    assert!(ex.contains(needle), "excerpt must show the match: {ex}");
    assert!(ex.starts_with('…'), "content precedes the window → leading …: {ex}");
    assert!(ex.contains("chars)"), "content follows → trailing count: {ex}");
    assert!(truncated, "a clipped match-centered window is truncated");
}

#[test]
fn match_excerpt_short_message_is_shown_whole() {
    let text = "a short hit here";
    let m = matcher("hit");
    let span = m.locate(text).unwrap();
    let (ex, truncated) = match_excerpt(text, span, EXCERPT_MAX);
    assert_eq!(ex, "a short hit here");
    assert!(!truncated, "a message that fits the cap is not truncated");
}

#[test]
fn match_excerpt_early_match_keeps_the_head() {
    let text = format!("needle {}", "z".repeat(EXCERPT_MAX));
    let m = matcher("needle");
    let span = m.locate(&text).unwrap();
    let (ex, truncated) = match_excerpt(&text, span, EXCERPT_MAX);
    assert!(!ex.starts_with('…'), "match at char 0 → no leading …: {ex}");
    assert!(ex.starts_with("needle"), "got: {ex}");
    assert!(truncated, "the tail past the window was dropped");
}

#[test]
fn match_excerpt_pure_filter_falls_back_to_head() {
    let text = "X".repeat(EXCERPT_MAX + 50);
    let m = matcher("");
    let span = m.locate(&text).expect("pure filter matches");
    assert_eq!(span, None, "pure filter has no locatable span");
    let (ex, truncated) = match_excerpt(&text, span, EXCERPT_MAX);
    assert!(!ex.starts_with('…'), "head form has no leading …");
    assert!(ex.ends_with("… (+50 chars)"), "got: {ex}");
    assert!(truncated, "the head form clipped 50 chars");
}

fn hit(class: Class) -> Hit {
    Hit {
        class: Some(class),
        labels: vec![class],
        excerpt: String::new(),
        timestamp_utc: None,
        tool_name: None,
        model: None,
        attachment_type: None,
        version: None,
        is_error: None,
        direction: None,
        tool_use_id: Some("t1".to_string()),
        pair: Some(Pairing::Paired),
        line: 0,
        uuid: None,
        raw: None,
        image_ids: Vec::new(),
        from_sidecar: false,
        queue_operation: None,
        queue_reason: None,
        delivery: None,
        resume_paired: None,
        truncated: false,
    }
}

#[test]
fn render_label_decorates_pairing_and_direction() {
    let paired = hit(Class::AgentToolUse);
    assert_eq!(render_label(&paired), "agent.tool.use ▹ agent.tool.result");
    let pending = Hit { pair: Some(Pairing::PendingNoResult), ..paired.clone() };
    assert_eq!(render_label(&pending), "agent.tool.use (no result — pending)");
    let orphan = Hit { class: Some(Class::AgentToolResult), pair: Some(Pairing::OrphanResult), ..paired.clone() };
    assert_eq!(render_label(&orphan), "agent.tool.result (use not in scope)");
    let comm = Hit {
        class: Some(Class::CommInbox),
        direction: Some(("VSMultiRegion".to_string(), "self".to_string())),
        tool_use_id: None,
        pair: None,
        ..paired.clone()
    };
    assert_eq!(render_label(&comm), "agent.communication.inbox  VSMultiRegion ⇨ self");
}

#[test]
fn render_tool_use_name_only_input_only_both_neither() {
    let v = ToolInput { json: "{\"k\":\"v\"}".to_string(), type_field: None, message_type: None, command: None, description: None, subagent_type: None, name: None, dangerous_command: false };
    assert_eq!(render_tool_use(Some("Bash"), None), "Bash");
    assert_eq!(render_tool_use(None, Some(&v)), " {\"k\":\"v\"}");
    assert_eq!(render_tool_use(Some("Read"), Some(&v)), "Read {\"k\":\"v\"}");
    assert_eq!(render_tool_use(None, None), "");
}

fn kept(rec: Record, line_no: usize) -> Kept {
    Kept { rec, can_hit: true, line_no, from_sidecar: false }
}

#[test]
fn turn_siblings_skip_matched_records_and_cap_machinery() {
    let user = record("user", Some("2026-01-01T00:00:00Z"), Some(Content::Text("the question".to_string())));
    let think = |t: &str| {
        record("assistant", None, Some(Content::Blocks(vec![Block::Thinking { thinking: t.to_string(), tag: None }])))
    };
    let reply = record("assistant", None, Some(Content::Blocks(vec![text("the answer")])));
    let records = vec![kept(user, 1), kept(think("one"), 2), kept(think("two"), 3), kept(think("three"), 4), kept(reply, 5)];
    let views = vec![
        view(vec![Class::UserMessage]),
        view(vec![Class::AgentThinking]),
        view(vec![Class::AgentThinking]),
        view(vec![Class::AgentThinking]),
        view(vec![Class::AgentMessage]),
    ];
    let (sibs, hidden) = collect_turn_siblings(&records, &views, &vec![0], EXCERPT_MAX, &Vec::new());
    let got: Vec<(Option<Class>, usize, &str)> = sibs.iter().map(|h| (h.class, h.line, h.excerpt.as_str())).collect();
    assert_eq!(
        got,
        vec![
            (Some(Class::AgentThinking), 2, "one"),
            (Some(Class::AgentThinking), 3, "two"),
            (Some(Class::AgentMessage), 5, "the answer"),
        ]
    );
    assert_eq!(hidden, 1, "thinking keeps its first two");
}

#[test]
fn unlabeled_unit_renders_the_raw_text() {
    let mut r = record("system", Some("2026-01-01T00:00:00Z"), None);
    r.content = Some("session state cache line".to_string());
    let h = unlabeled_hit(&r, &matcher("state"), EXCERPT_MAX).expect("the raw text matches");
    assert_eq!(h.class, None);
    assert!(h.labels.is_empty());
    assert_eq!(h.excerpt, "session state cache line");
    assert_eq!(h.timestamp_utc.as_deref(), Some("2026-01-01T00:00:00Z"));
    assert!(unlabeled_hit(&r, &matcher("absent"), EXCERPT_MAX).is_none());
    let bare = record("system", None, None);
    assert!(unlabeled_hit(&bare, &matcher(""), EXCERPT_MAX).is_none());
}

#[test]
fn synth_texts_match_checks_the_rendered_texts() {
    let r = record("user", None, None);
    let mut v = view(vec![Class::NotificationSubagent]);
    v.texts = RecordTexts { automation: Some("[subagent stopped] probe".to_string()), reconstructed: None, raw: None };
    assert!(synth_texts_match(&matcher("subagent"), &r, &v));
    assert!(!synth_texts_match(&matcher("zzabsent"), &r, &v));
}

#[test]
fn the_file_gate_skips_only_when_nothing_can_hit() {
    assert_eq!(file_gate_decision(true, 3, &vec![MarkerCheck::Malformed]), None);
    assert_eq!(file_gate_decision(false, 1, &vec![MarkerCheck::Texts(false), MarkerCheck::Texts(true)]), None);
    assert_eq!(
        file_gate_decision(false, 1, &vec![MarkerCheck::Malformed, MarkerCheck::NoRecord, MarkerCheck::Texts(false), MarkerCheck::Malformed]),
        Some(3)
    );
    assert_eq!(file_gate_decision(false, 0, &Vec::new()), Some(0));
}
