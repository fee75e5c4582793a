use csift::range::{Endpoint, RangeSpec};
use csift::search::types::ChainCounts;
use csift::show::addr::{effective_cap, parse_line_specs, resolve_line_specs, turn_miss_error, turn_spec_is_explicit, LineSpecs, DEFAULT_SHOW_CAP};
use csift::show::plan::{run_raw, run_show, show_mode, ShowArgs, ShowMode};
use csift::show::settle::{settle_show, ShowOutcome};

fn args() -> ShowArgs {
    ShowArgs {
        target: vec!["@abc".to_string()],
        line: vec![],
        uuid: vec![],
        turn: None,
        raw: false,
        json: false,
        max_count: None,
        branch_points: false,
        span_flag_error: None,
    }
}

#[test]
fn chain_counts_empty_first_transcript_still_counts() {
    let mut c = ChainCounts::default();
    c.add(&ChainCounts::default());
    assert_eq!(c.transcripts, 1);
    let mut x = ChainCounts::default();
    x.abandoned_records = 2;
    x.boundary_cut_line = Some(7);
    x.leaf_source = Some("tip");
    c.add(&x);
    assert_eq!(c.abandoned_records, 2);
    assert_eq!(c.boundary_cut_line, None);
    assert_eq!(c.leaf_source, None);
    assert_eq!(c.transcripts, 2);
}

#[test]
fn chain_counts_fold_drops_single_transcript_facts() {
    let mut total = ChainCounts::new();
    let mut one = ChainCounts::new();
    one.abandoned_records = 2;
    one.boundary_cut_line = Some(40);
    total.add(&one);
    assert_eq!(total.boundary_cut_line, Some(40));
    assert!(total.any());
    let mut two = ChainCounts::new();
    two.replay_copies = 1;
    two.boundary_cut_line = Some(7);
    total.add(&two);
    assert_eq!(total.abandoned_records, 2);
    assert_eq!(total.replay_copies, 1);
    assert_eq!(total.boundary_cut_line, None);
    assert!(total.any());
    assert!(!ChainCounts::new().any());
}

#[test]
fn line_specs_expand_ascending_without_duplicates() {
    let parsed = parse_line_specs(&vec!["5".to_string(), " ".to_string(), "3..6".to_string(), "-2..".to_string()]).unwrap();
    assert_eq!(parsed.len(), 3);
    assert!(parsed[0].0 && !parsed[1].0 && !parsed[2].0);
    let specs = resolve_line_specs(&parsed, 20);
    assert_eq!(specs.explicit, vec![5]);
    assert_eq!(specs.ranges, vec![(3, 6), (19, 20)]);
    assert_eq!(specs.all(), vec![3, 4, 5, 6, 19, 20]);
    assert!(parse_line_specs(&vec!["x".to_string()]).is_err());
    assert!(LineSpecs::new().all().is_empty());
}

#[test]
fn the_cap_defaults_and_zero_lifts_it() {
    assert_eq!(effective_cap(None), DEFAULT_SHOW_CAP);
    assert_eq!(effective_cap(Some(0)), usize::MAX);
    assert_eq!(effective_cap(Some(7)), 7);
}

#[test]
fn an_explicit_turn_miss_names_the_domain() {
    let one = RangeSpec { start: Endpoint::At(99), end: Endpoint::At(99) };
    assert!(turn_spec_is_explicit(&one));
    assert_eq!(
        turn_miss_error(&one, 3),
        "no such turn(s): t99 — the transcript has 3 turn(s) (t0..t2); turn indices are 0-based (the `tN` search prints), and the last k turns are `--turn -k..`"
    );
    let open = RangeSpec { start: Endpoint::FromEnd(3), end: Endpoint::Open };
    assert!(!turn_spec_is_explicit(&open));
    assert!(turn_miss_error(&open, 0).contains("the requested turn range — the transcript has 0 turns"));
}

#[test]
fn show_refuses_raw_json_and_several_targets() {
    let mut a = args();
    a.raw = true;
    a.json = true;
    assert_eq!(
        run_show(&a).unwrap_err(),
        "--raw is mutually exclusive with --format json (raw IS the file's own JSON)"
    );
    let mut b = args();
    b.target = vec!["a.jsonl".to_string(), "b.jsonl".to_string()];
    let e = run_show(&b).unwrap_err();
    assert!(e.starts_with("show reads exactly ONE transcript per call; got 2 targets: 'a.jsonl', 'b.jsonl' — "), "{e}");
}

#[test]
fn show_collects_uuids_trimmed_sorted_and_distinct() {
    let mut a = args();
    a.uuid = vec![" b ".to_string(), "a".to_string(), "".to_string(), "b".to_string()];
    let req = run_show(&a).unwrap();
    assert_eq!(req.uuids, vec!["a".to_string(), "b".to_string()]);
    assert_eq!(show_mode(&req, "f.jsonl").unwrap(), ShowMode::Rendered);
}

#[test]
fn show_without_an_address_is_refused() {
    let req = run_show(&args()).unwrap();
    let e = show_mode(&req, "/t/s.jsonl").unwrap_err();
    assert!(e.starts_with("show needs an address: "), "{e}");
    assert!(e.contains("The transcript is /t/s.jsonl — csift never dumps"), "{e}");
}

#[test]
fn raw_misses_and_cap() {
    let e = run_raw(&vec![3, 12], &vec![(11, 14)], 10, &vec![("u1".to_string(), None), ("u2".to_string(), Some(4))], &vec![], None)
        .unwrap_err();
    assert_eq!(e, "no such record(s): L12 (file has 10 lines), L11-14 (file has 10 lines), uuid u1");
    let ok = run_raw(&vec![], &vec![], 10, &vec![], &vec![1, 2, 3, 4], Some(3)).unwrap();
    assert_eq!((ok.keep, ok.dropped, ok.continuation), (3, 1, Some((4, 4))));
}

fn three_lines() -> Vec<Option<String>> {
    vec![Some("u1".to_string()), None, Some("u3".to_string())]
}

#[test]
fn settle_show_without_an_address_names_the_file() {
    let mut a = args();
    a.uuid = vec!["   ".to_string()];
    let mut exs = Vec::new();
    let r = settle_show(&a, "/t/abc.jsonl", &three_lines(), &mut exs, 0, "abc");
    let m = r.err().expect("refused");
    assert!(m.starts_with("show needs an address"), "{m}");
    assert!(m.contains("/t/abc.jsonl"), "{m}");
}

#[test]
fn settle_show_raw_line_past_the_end_is_a_miss() {
    let mut a = args();
    a.raw = true;
    a.line = vec!["9".to_string()];
    let mut exs = Vec::new();
    let r = settle_show(&a, "/t/abc.jsonl", &three_lines(), &mut exs, 0, "abc");
    assert_eq!(r.err().expect("refused"), "no such record(s): L9 (file has 3 lines)");
}

#[test]
fn settle_show_rendered_line_past_the_end_is_a_miss() {
    let mut a = args();
    a.line = vec!["9".to_string()];
    let mut exs = Vec::new();
    let r = settle_show(&a, "/t/abc.jsonl", &three_lines(), &mut exs, 0, "abc");
    let m = r.err().expect("refused");
    assert!(m.starts_with("no such record(s): L9 — an explicit address renders"), "{m}");
}

#[test]
fn settle_show_raw_keeps_lines_and_resolved_uuids() {
    let mut a = args();
    a.raw = true;
    a.line = vec!["2".to_string()];
    a.uuid = vec![" u3 ".to_string()];
    let mut exs = Vec::new();
    match settle_show(&a, "/t/abc.jsonl", &three_lines(), &mut exs, 0, "abc") {
        Ok(ShowOutcome::Raw(lines, st)) => {
            assert_eq!(lines, vec![2, 3]);
            assert_eq!(st.keep, 2);
            assert_eq!(st.dropped, 0);
        }
        other => panic!("unexpected {other:?}"),
    }
}

#[test]
fn settle_show_raw_unresolved_uuid_is_a_miss() {
    let mut a = args();
    a.raw = true;
    a.uuid = vec!["zz".to_string()];
    let mut exs = Vec::new();
    let r = settle_show(&a, "/t/abc.jsonl", &three_lines(), &mut exs, 0, "abc");
    assert_eq!(r.err().expect("refused"), "no such record(s): uuid zz");
}

#[test]
fn settle_show_raw_refuses_an_empty_transcript() {
    let mut a = args();
    a.raw = true;
    a.line = vec!["1".to_string()];
    let mut exs = Vec::new();
    let r = settle_show(&a, "/t/abc.jsonl", &Vec::new(), &mut exs, 0, "abc");
    assert_eq!(r.err().expect("refused"), "transcript /t/abc.jsonl is empty");
}

#[test]
fn settle_show_branch_points_and_argument_checks() {
    let mut a = args();
    a.branch_points = true;
    let mut exs = Vec::new();
    assert!(matches!(settle_show(&a, "f", &three_lines(), &mut exs, 0, "abc"), Ok(ShowOutcome::BranchPoints)));
    let mut b = args();
    b.raw = true;
    b.json = true;
    let r = settle_show(&b, "f", &three_lines(), &mut exs, 0, "abc");
    assert!(r.err().expect("refused").starts_with("--raw is mutually exclusive"));
}
