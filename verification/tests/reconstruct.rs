use csift::labels::Class;
use csift::model::{Block, Content, Message, Record, ToolInput};
use csift::search::census::AddressSet;
use csift::search::filter::LabelFilter;
use csift::search::hits::RecordView;
use csift::search::matcher::{build_matcher, MarkerSelection, Matcher};
use csift::search::record_text::RecordTexts;
use csift::search::reconstruct::reconstruct_and_match;
use csift::search::rows::Kept;
use csift::search::types::{Exchange, Pairing};
use csift::time_window::TimeWindow;

const PATH: &str = "/p/-Enc/0a1b2c3d-4e5f-4a6b-8c7d-9e0f1a2b3c4d.jsonl";

fn record(kind: &str, uuid: &str, ts: &str, content: Content) -> Record {
    Record {
        record_type: Some(kind.to_string()),
        subtype: None,
        uuid: Some(uuid.to_string()),
        parent_uuid: None,
        timestamp: Some(ts.to_string()),
        is_meta: None,
        is_compact_summary: None,
        cwd: None,
        version: None,
        git_branch: None,
        session_id: None,
        message: Some(Message {
            role: Some(kind.to_string()),
            content: Some(content),
            model: None,
            id: None,
            usage: None,
        }),
        content: None,
        compact_metadata: None,
        hook_context: None,
    }
}

fn view(labels: Vec<Class>, reconstructed: Option<&str>) -> RecordView {
    RecordView {
        labels,
        texts: RecordTexts { automation: None, reconstructed: reconstructed.map(str::to_string), raw: None },
        user_dual_text: None,
        elicitation: None,
        direction: None,
        persisted: None,
    }
}

fn kept(rec: Record, line: usize) -> Kept {
    Kept { rec, can_hit: true, line_no: line, from_sidecar: false }
}

fn matcher(p: &str) -> Matcher {
    let sel = MarkerSelection {
        compaction_boundary: false,
        turn_duration: false,
        stop_hooks: false,
        snapshot: false,
        resolve_persisted: false,
    };
    build_matcher(p, false, false, sel).unwrap()
}

fn run(
    records: &[Kept],
    opens: &[bool],
    views: &Vec<RecordView>,
    filter: &LabelFilter,
    m: &Matcher,
    turn: Option<&str>,
) -> Vec<Exchange> {
    let skip = vec![false; records.len()];
    let range = turn.map(|t| csift::search::excerpt::parse_turn_range(t).unwrap());
    reconstruct_and_match(PATH, records, opens, &skip, views, filter, m, range, None, &TimeWindow::unbounded(), false).0
}

fn tool_result_carrier(uuid: &str, ts: &str, id: &str, text: &str) -> Record {
    record(
        "user",
        uuid,
        ts,
        Content::Blocks(vec![Block::ToolResult {
            tool_use_id: Some(id.to_string()),
            content: Some(text.to_string()),
            is_error: None,
        }]),
    )
}

#[test]
fn reconstruct_synthetic_lead_records_merge_into_first_real_turn() {
    let records = vec![
        kept(tool_result_carrier("lead", "2026-06-07T04:59:00.000Z", "x", "orphan carry note"), 1),
        kept(record("user", "u0", "2026-06-07T05:00:00.000Z", Content::Text("real first about carry".to_string())), 2),
        kept(
            record("assistant", "a0", "2026-06-07T05:00:05.000Z",
                Content::Blocks(vec![Block::Text { text: "answer carry".to_string() }])),
            3,
        ),
        kept(record("user", "u1", "2026-06-07T06:00:00.000Z", Content::Text("second carry".to_string())), 4),
    ];
    let views = vec![
        view(vec![Class::AgentToolResult], None),
        view(vec![Class::UserMessage], Some("real first about carry")),
        view(vec![Class::AgentMessage], None),
        view(vec![Class::UserMessage], Some("second carry")),
    ];
    let ex = run(&records, &[false, true, false, true], &views, &LabelFilter::all(), &matcher("carry"), None);
    let indices: Vec<Option<usize>> = ex.iter().map(|e| e.turn_index).collect();
    assert_eq!(indices, vec![Some(0), Some(1)], "synthetic lead folds into turn 0");
    assert!(ex[0].record_uuids.contains(&"lead".to_string()));
    assert_eq!(ex[0].turn_lines, (1, 3));
    assert_eq!(ex[0].started_utc.as_deref(), Some("2026-06-07T04:59:00.000Z"));
    assert_eq!(ex[0].session_id, "0a1b2c3d-4e5f-4a6b-8c7d-9e0f1a2b3c4d");
    assert_eq!(ex[0].parent_session_id, ex[0].session_id);
    assert!(!ex[0].is_subagent);
}

#[test]
fn reconstruct_only_synthetic_lead_no_genuine_user() {
    let records = vec![
        kept(tool_result_carrier("o0", "2026-06-07T05:00:00.000Z", "x", "orphan carry one"), 1),
        kept(tool_result_carrier("o1", "2026-06-07T05:00:01.000Z", "y", "orphan carry two"), 2),
    ];
    let views = vec![view(vec![Class::AgentToolResult], None), view(vec![Class::AgentToolResult], None)];
    let filter = LabelFilter::new(&["agent.tool.result".to_string()], &[]);
    let ex = run(&records, &[false, false], &views, &filter, &matcher("carry"), None);
    assert_eq!(ex.len(), 1);
    assert_eq!(ex[0].turn_index, Some(0));
    assert_eq!(ex[0].hits.len(), 2);
    assert_eq!(ex[0].hits[0].pair, Some(Pairing::OrphanResult));
}

#[test]
fn turn_range_excludes_below_lo_and_above_hi() {
    let records = vec![
        kept(record("user", "u0", "2026-06-07T05:00:00.000Z", Content::Text("first".to_string())), 1),
        kept(record("assistant", "a0", "2026-06-07T05:00:01.000Z",
            Content::Blocks(vec![Block::Text { text: "reply".to_string() }])), 2),
        kept(record("user", "u1", "2026-06-07T05:01:00.000Z", Content::Text("second".to_string())), 3),
        kept(record("assistant", "a1", "2026-06-07T05:01:01.000Z",
            Content::Blocks(vec![Block::Text { text: "reply two".to_string() }])), 4),
    ];
    let views = vec![
        view(vec![Class::UserMessage], Some("first")),
        view(vec![Class::AgentMessage], None),
        view(vec![Class::UserMessage], Some("second")),
        view(vec![Class::AgentMessage], None),
    ];
    let ex = run(&records, &[true, false, true, false], &views, &LabelFilter::all(), &matcher(""), Some("0..0"));
    let indices: Vec<Option<usize>> = ex.iter().map(|e| e.turn_index).collect();
    assert_eq!(indices, vec![Some(0)], "only turn 0; turn 1 excluded by the > hi arm");
    let all = run(&records, &[true, false, true, false], &views, &LabelFilter::all(), &matcher(""), None);
    assert_eq!(all.len(), 2);
    assert_eq!(all[1].hits[0].excerpt, "second");
}

#[test]
fn auq_answer_still_surfaces_under_tool_response_alone() {
    let ask = Block::ToolUse {
        id: Some("q1".to_string()),
        name: Some("AskUserQuestion".to_string()),
        input: Some(ToolInput {
            json: "{\"questions\":[{\"question\":\"which?\"}]}".to_string(),
            type_field: None,
            message_type: None,
            command: None,
            description: None,
            subagent_type: None,
            name: None,
            dangerous_command: false,
        }),
    };
    let records = vec![
        kept(record("user", "u0", "2026-06-07T05:00:00.000Z", Content::Text("pick one".to_string())), 1),
        kept(record("assistant", "a0", "2026-06-07T05:00:01.000Z", Content::Blocks(vec![ask])), 2),
        kept(tool_result_carrier("ans", "2026-06-07T05:00:30.000Z", "q1",
            "User has answered your questions: \"which?\"=\"zzqq choice\". You can now continue."), 3),
    ];
    let mut answer = view(vec![Class::UserAnswer, Class::AgentToolResult], None);
    answer.user_dual_text = Some("[AskUserQuestion · 1 question] Q1 which? A1 zzqq choice".to_string());
    let views = vec![
        view(vec![Class::UserMessage], Some("pick one")),
        view(vec![Class::AgentToolUse], None),
        answer,
    ];
    let filter = LabelFilter::new(&["agent.tool.result".to_string()], &[]);
    let ex = run(&records, &[true, false, false], &views, &filter, &matcher("zzqq"), None);
    assert_eq!(ex.len(), 1);
    assert!(ex[0].hits.iter().all(|h| h.class == Some(Class::AgentToolResult)));
    assert_eq!(ex[0].hits.len(), 1, "exactly one tool-response hit");
    assert_eq!(ex[0].hits[0].tool_name.as_deref(), Some("AskUserQuestion"));
    assert_eq!(ex[0].hits[0].pair, Some(Pairing::Paired));
    assert_eq!(ex[0].hits[0].line, 3);
}

#[test]
fn the_user_dual_supersedes_the_plain_result_when_selected() {
    let records = vec![kept(tool_result_carrier("ans", "2026-06-07T05:00:30.000Z", "q1",
        "User has answered your questions: zzqq"), 1)];
    let mut answer = view(vec![Class::UserAnswer, Class::AgentToolResult], None);
    answer.user_dual_text = Some("A1 zzqq".to_string());
    let ex = run(&records, &[false], &vec![answer], &LabelFilter::all(), &matcher("zzqq"), None);
    assert_eq!(ex.len(), 1);
    assert_eq!(ex[0].hits.len(), 1);
    assert_eq!(ex[0].hits[0].class, Some(Class::UserAnswer));
    assert_eq!(ex[0].hits[0].excerpt, "A1 zzqq");
}

#[test]
fn an_address_reaches_a_skipped_draft_as_its_own_unit() {
    let records = vec![
        kept(record("user", "u0", "2026-06-07T05:00:00.000Z", Content::Text("first".to_string())), 1),
        kept(record("user", "d0", "2026-06-07T05:00:10.000Z", Content::Text("draft".to_string())), 2),
    ];
    let views = vec![view(vec![Class::UserMessage], Some("first")), view(vec![Class::UserMessage], Some("draft"))];
    let addr = AddressSet { lines: vec![2], uuids: vec![] };
    let (ex, turns, skipped) = reconstruct_and_match(PATH, &records, &[true, true], &[false, true], &views,
        &LabelFilter::all(), &matcher(""), None, Some(&addr), &TimeWindow::unbounded(), false);
    assert_eq!(turns, 1);
    assert_eq!(skipped, 1);
    assert_eq!(ex.len(), 1);
    assert!(ex[0].superseded_draft);
    assert_eq!(ex[0].turn_index, None);
    assert_eq!(ex[0].hits[0].excerpt, "draft");
}
