use csift::model::{Content, Message, Record};
use csift::search::rows::{merge_rows, merge_spine, Kept, Row};

fn rec_at(line: usize) -> Record {
    Record {
        record_type: Some("user".to_string()),
        subtype: None,
        uuid: Some(format!("u{line}")),
        parent_uuid: None,
        timestamp: Some("2026-06-07T05:00:00.000Z".to_string()),
        is_meta: None,
        is_compact_summary: None,
        cwd: None,
        version: None,
        git_branch: None,
        session_id: None,
        message: Some(Message {
            role: Some("user".to_string()),
            content: Some(Content::Text(format!("row {line}"))),
            model: None,
            id: None,
            usage: None,
        }),
        content: None,
        compact_metadata: None,
        hook_context: None,
    }
}

fn spine_at(line: usize) -> (usize, Record) {
    let mut r = rec_at(line);
    r.record_type = Some("attachment".to_string());
    r.message = None;
    (line, r)
}

fn kept_at(line: usize) -> Kept {
    Kept { rec: rec_at(line), can_hit: true, line_no: line, from_sidecar: line == 0 }
}

fn row_lines(rows: &[Row<'_>]) -> Vec<usize> {
    rows.iter().map(|r| r.line_no()).collect()
}

#[test]
fn merge_spine_interleaves_the_scanned_and_demoted_streams_by_line() {
    let scanned: Vec<_> = [2usize, 4, 9].into_iter().map(spine_at).collect();
    let demoted: Vec<_> = [1usize, 5, 7].into_iter().map(spine_at).collect();
    let out = merge_spine(scanned, demoted);
    assert_eq!(out.iter().map(|s| s.0).collect::<Vec<_>>(), vec![1, 2, 4, 5, 7, 9]);
}

#[test]
fn merge_spine_handles_a_stream_that_runs_out_first() {
    let scanned: Vec<_> = [1usize, 2].into_iter().map(spine_at).collect();
    let demoted: Vec<_> = [8usize, 9, 10].into_iter().map(spine_at).collect();
    let out = merge_spine(scanned, demoted);
    assert_eq!(out.iter().map(|s| s.0).collect::<Vec<_>>(), vec![1, 2, 8, 9, 10]);
}

#[test]
fn merge_spine_keeps_the_scanned_row_first_on_a_tie() {
    let scanned = vec![(3usize, "scanned")];
    let demoted = vec![(3usize, "demoted")];
    let out = merge_spine(scanned, demoted);
    assert_eq!(out, vec![(3, "scanned"), (3, "demoted")]);
}

#[test]
fn merge_rows_puts_records_and_spine_rows_in_file_order() {
    let records = vec![kept_at(5), kept_at(7)];
    let spine = vec![spine_at(2), spine_at(6)];
    let out = merge_rows(&records, &spine);
    assert_eq!(row_lines(&out), vec![2, 5, 6, 7]);
    assert!(out[0].kept().is_none(), "L2 is a chain-only spine row");
    assert!(out[1].kept().is_some(), "L5 is a searchable record");
    assert!(out[2].kept().is_none(), "L6 is a chain-only spine row");
    assert!(out[3].kept().is_some(), "L7 is a searchable record");
}

#[test]
fn a_sidecar_record_lands_after_every_scanned_row() {
    let records = vec![kept_at(2), kept_at(0)];
    let spine = vec![spine_at(5)];
    let out = merge_rows(&records, &spine);
    assert_eq!(row_lines(&out), vec![2, 5, 0]);
    assert!(out[2].kept().is_some_and(|k| k.from_sidecar), "the line-less record is last, not first");
}
