use csift::labels::Class;
use csift::search::types::{Exchange, Hit};
use csift::show::text::{show_text, show_text_lines};

fn hit(line: usize, class: Class, text: &str) -> Hit {
    Hit {
        class: Some(class),
        labels: vec![class],
        excerpt: text.to_string(),
        timestamp_utc: None,
        tool_name: None,
        model: None,
        attachment_type: None,
        version: None,
        is_error: None,
        direction: None,
        tool_use_id: None,
        pair: None,
        line,
        uuid: None,
        raw: None,
        image_ids: Vec::new(),
        from_sidecar: false,
        queue_operation: None,
        queue_reason: None,
        delivery: None,
        resume_paired: None,
        truncated: false,
    }
}

fn exchange(turn: Option<usize>, hits: Vec<Hit>) -> Exchange {
    Exchange {
        session_id: "s".to_string(),
        is_subagent: false,
        parent_session_id: "s".to_string(),
        turn_index: turn,
        started_utc: None,
        hits,
        siblings: Vec::new(),
        siblings_hidden: 0,
        turn_lines: (0, 0),
        record_uuids: Vec::new(),
        superseded_draft: false,
    }
}

#[test]
fn show_text_lists_turns_records_and_accounting() {
    let mut img = hit(9, Class::AgentMessage, "look");
    img.image_ids = vec!["#2".to_string()];
    let ex = vec![
        exchange(Some(4), vec![hit(8, Class::UserMessage, "hello")]),
        exchange(Some(5), vec![img]),
    ];
    let lines = show_text_lines(&ex, "abc", true, "0a1b", 1, 3, 2, Some("csift show @abc --line 10.."), 2,
        &vec!["A".to_string(), "B".to_string()]);
    let expected: Vec<String> = vec![
        "SUBAGENT abc · parent SESSION 0a1b",
        "",
        "t4  A",
        "  ◂ user.message  L8  hello",
        "",
        "t5  B",
        "  ▸ agent.message  L9  look  [1 image: #2]",
        "      ↳ read the image(s): csift image @abc --id 2 --out DIR           (decodes to a file you can then Read - an image-bearing turn is evidence, not a blank)",
        "",
        "fetched 2 record unit(s)",
        "+3 more record unit(s) beyond the 2-unit cap · continue: csift show @abc --line 10..  (or --max-count 0 = uncapped)",
        "2 line(s) in the addressed range are not records (metadata/attachment — inspect with --raw)",
        "(1 malformed line skipped)",
    ]
    .into_iter()
    .map(str::to_string)
    .collect();
    assert_eq!(lines, expected);
}

#[test]
fn show_text_without_a_continuation_and_undated() {
    let ex = vec![exchange(None, vec![hit(3, Class::UserMessage, "x")])];
    let lines = show_text(&ex, "u", false, "u", 0, 1, 1, None, 0);
    assert_eq!(lines[0], "SESSION u");
    assert_eq!(lines[2], "t?  —");
    assert_eq!(lines[5], "fetched 1 record unit(s)");
    assert_eq!(lines[6], "+1 more record unit(s) beyond the 1-unit cap — pass --max-count 0 (uncapped)");
    assert_eq!(lines.len(), 7);
}
