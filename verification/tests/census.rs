use csift::labels::Class;
use csift::search::axis::{axis_census, label_census, CountAxis};
use csift::search::diagnosis::{active_filters_str, diagnosis_lines, excluded_by_label, EmptyDiagnosis};
use csift::search::filter::LabelFilter;
use csift::search::types::{Exchange, Hit, Pairing};

fn hit(line: usize, labels: Vec<Class>) -> Hit {
    Hit {
        class: labels.first().copied(),
        labels,
        excerpt: String::new(),
        timestamp_utc: None,
        tool_name: None,
        model: None,
        attachment_type: None,
        version: None,
        is_error: None,
        direction: None,
        tool_use_id: None,
        pair: None,
        line,
        uuid: None,
        raw: None,
        image_ids: Vec::new(),
        from_sidecar: false,
        queue_operation: None,
        queue_reason: None,
        delivery: None,
        resume_paired: None,
        truncated: false,
    }
}

fn exchange(sid: &str, turn: Option<usize>, hits: Vec<Hit>) -> Exchange {
    Exchange {
        session_id: sid.to_string(),
        is_subagent: false,
        parent_session_id: sid.to_string(),
        turn_index: turn,
        started_utc: None,
        hits,
        siblings: Vec::new(),
        siblings_hidden: 0,
        turn_lines: (0, 0),
        record_uuids: Vec::new(),
        superseded_draft: false,
    }
}

fn rows(v: &[(String, usize)]) -> Vec<(&str, usize)> {
    v.iter().map(|(k, n)| (k.as_str(), *n)).collect()
}

/// Two records in one turn (one of them a text + tool-use record on line 3, two hits) and
/// one tool record in another.
fn sample() -> Vec<Exchange> {
    let mut msg = hit(3, vec![Class::AgentMessage, Class::AgentToolUse]);
    msg.model = Some("opus".to_string());
    let mut tool_view = hit(3, vec![Class::AgentMessage, Class::AgentToolUse]);
    tool_view.tool_name = Some("Bash".to_string());
    tool_view.pair = Some(Pairing::Paired);
    let user = hit(1, vec![Class::UserMessage]);
    let mut read = hit(9, vec![Class::AgentToolUse]);
    read.tool_name = Some("Read".to_string());
    read.pair = Some(Pairing::PendingNoResult);
    read.model = Some("opus".to_string());
    vec![
        exchange("s1", Some(0), vec![user, msg, tool_view]),
        exchange("s1", Some(2), vec![read]),
    ]
}

#[test]
fn label_axis_counts_each_record_once_per_leaf() {
    let (r, records, excluded) = axis_census(&sample(), CountAxis::Label, &LabelFilter::all());
    assert_eq!(records, 3);
    assert_eq!(excluded, 0);
    assert_eq!(rows(&r), vec![("agent.tool.use", 2), ("agent.message", 1), ("user.message", 1)]);
}

#[test]
fn label_axis_keys_follow_the_filter() {
    let f = LabelFilter::new(&["agent".to_string()], &["agent.message".to_string()]);
    let (r, records, _) = axis_census(&sample(), CountAxis::Label, &f);
    assert_eq!(records, 3);
    assert_eq!(rows(&r), vec![("agent.tool.use", 2)]);
}

#[test]
fn label_census_is_in_leaf_order_with_the_same_counts() {
    let (table, records) = label_census(&sample(), &LabelFilter::all());
    assert_eq!(records, 3);
    assert_eq!(rows(&table), vec![("agent.message", 1), ("agent.tool.use", 2), ("user.message", 1)]);
}

#[test]
fn tool_axis_takes_the_first_tool_of_the_record_and_excludes_the_rest() {
    let (r, records, excluded) = axis_census(&sample(), CountAxis::Tool, &LabelFilter::all());
    assert_eq!(records, 3);
    assert_eq!(excluded, 1, "the user record carries no tool");
    assert_eq!(rows(&r), vec![("Bash", 1), ("Read", 1)]);
}

#[test]
fn pairing_and_model_axes() {
    let (p, _, pex) = axis_census(&sample(), CountAxis::Pairing, &LabelFilter::all());
    assert_eq!(rows(&p), vec![("paired", 1), ("pending", 1)]);
    assert_eq!(pex, 1);
    let (m, _, mex) = axis_census(&sample(), CountAxis::Model, &LabelFilter::all());
    assert_eq!(rows(&m), vec![("opus", 2)]);
    assert_eq!(mex, 1);
}

#[test]
fn turn_axis_is_a_histogram_in_turn_order() {
    let mut ex = sample();
    ex.push(exchange("s1", Some(0), vec![hit(20, vec![Class::UserMessage])]));
    ex.push(exchange("s1", None, vec![hit(30, vec![Class::UserMessage])]));
    let (r, records, excluded) = axis_census(&ex, CountAxis::Turn, &LabelFilter::all());
    assert_eq!(records, 5);
    assert_eq!(excluded, 1, "a record no turn reaches is outside the axis");
    assert_eq!(rows(&r), vec![("t0", 3), ("t2", 1)]);
}

#[test]
fn turn_keys_name_the_transcript_when_several_are_in_scope() {
    let ex = vec![
        exchange("s2", Some(10), vec![hit(1, vec![Class::UserMessage])]),
        exchange("s1", Some(3), vec![hit(1, vec![Class::UserMessage])]),
        exchange("s2", Some(9), vec![hit(4, vec![Class::UserMessage])]),
    ];
    let (r, _, _) = axis_census(&ex, CountAxis::Turn, &LabelFilter::all());
    assert_eq!(rows(&r), vec![("s1\u{b7}t3", 1), ("s2\u{b7}t9", 1), ("s2\u{b7}t10", 1)]);
}

#[test]
fn session_axis_ties_break_by_key() {
    let ex = vec![
        exchange("b", Some(0), vec![hit(1, vec![Class::UserMessage])]),
        exchange("a", Some(0), vec![hit(1, vec![Class::UserMessage])]),
        exchange("b", Some(1), vec![hit(2, vec![Class::UserMessage])]),
    ];
    let (r, _, _) = axis_census(&ex, CountAxis::Session, &LabelFilter::all());
    assert_eq!(rows(&r), vec![("b", 2), ("a", 1)]);
}

#[test]
fn unlocated_hits_are_records_of_their_own() {
    let ex = vec![exchange("s", Some(0), vec![hit(0, vec![Class::UserMessage]), hit(0, vec![Class::UserMessage])])];
    let (_, records, _) = axis_census(&ex, CountAxis::Label, &LabelFilter::all());
    assert_eq!(records, 2);
}

#[test]
fn active_filters_echo() {
    assert_eq!(active_filters_str(&vec![], &vec![], &None, &None, &None, false), "none");
    let s = active_filters_str(
        &vec!["user.message".to_string()],
        &vec!["agent".to_string()],
        &Some("2026-01-01".to_string()),
        &None,
        &Some("3..5".to_string()),
        true,
    );
    assert_eq!(s, "-t user.message -T agent --since 2026-01-01 --turn 3..5 --additional-context");
}

#[test]
fn diagnosis_names_the_labels_the_pattern_occurs_under() {
    let d = EmptyDiagnosis {
        sessions_in_scope: 2,
        active_filters: "-t user.message".to_string(),
        skipped_lines: 1,
        label_filtered: true,
        excluded_by_label: excluded_by_label(&sample()),
    };
    let lines = diagnosis_lines("Bash", &d);
    assert_eq!(lines.len(), 3);
    assert_eq!(
        lines[0],
        "csift: 0 matches \u{2014} a DEFINITIVE absence (exit 0), NOT an error. Scope: 2 session(s). Active filters: -t user.message."
    );
    assert_eq!(lines[1], "csift: caveat: 1 malformed line skipped \u{2014} the absence is definitive for parseable lines only.");
    assert_eq!(
        lines[2],
        "csift: \u{26a0} but \"Bash\" DOES occur \u{2014} 3 record(s) under: agent.tool.use \u{d7}2 \u{b7} agent.message \u{d7}1 \u{b7} user.message \u{d7}1. Your -t/-T excluded them; drop -t/-T or select one of those labels."
    );
}

#[test]
fn diagnosis_summarizes_beyond_six_labels() {
    let many: Vec<(String, usize)> = (0..8).map(|i| (format!("l{i}"), 8 - i)).collect();
    let d = EmptyDiagnosis {
        sessions_in_scope: 1,
        active_filters: "-t x".to_string(),
        skipped_lines: 0,
        label_filtered: true,
        excluded_by_label: Some((many, 9)),
    };
    let lines = diagnosis_lines("", &d);
    assert_eq!(lines.len(), 2);
    assert!(lines[1].starts_with("csift: \u{26a0} but the filter DOES occur \u{2014} 9 record(s) under: l0 \u{d7}8"));
    assert!(lines[1].contains("l5 \u{d7}3 (+2 more label(s))."), "got: {}", lines[1]);
}

#[test]
fn diagnosis_when_absent_even_unfiltered_or_unfiltered() {
    let mut d = EmptyDiagnosis {
        sessions_in_scope: 1,
        active_filters: "none".to_string(),
        skipped_lines: 0,
        label_filtered: true,
        excluded_by_label: excluded_by_label(&Vec::new()),
    };
    assert!(d.excluded_by_label.is_none());
    assert_eq!(
        diagnosis_lines("zzz", &d)[1],
        "csift: (even without the -t/-T filter, \"zzz\" has 0 matches here \u{2014} genuinely absent in this scope, not a label mistake.)"
    );
    d.label_filtered = false;
    assert_eq!(
        diagnosis_lines("zzz", &d)[1],
        "csift: to see what a scope holds before guessing a filter, run `csift search \"\" <target> --count-by label`."
    );
}

#[test]
fn single_key_axes_account_for_every_record() {
    for axis in [CountAxis::Tool, CountAxis::Session, CountAxis::Pairing, CountAxis::Model] {
        let (r, records, excluded) = axis_census(&sample(), axis, &LabelFilter::all());
        let counted: usize = r.iter().map(|(_, n)| *n).sum();
        assert_eq!(counted + excluded, records, "{axis:?}");
    }
}
