use csift::lineage::{clone_head_boundary, clone_origin, cleared_from_origin, nearest_checkpoint_close, OriginCandidate};
use csift::model::{Content, Message, Record};

const BX: &str = "0f1e2d3c-4b5a-4697-8807-16f5e4d3c2b1";

fn rec(kind: &str, subtype: Option<&str>, uuid: Option<&str>, ts: Option<&str>, text: Option<&str>) -> Record {
    Record {
        record_type: Some(kind.to_string()),
        subtype: subtype.map(str::to_string),
        uuid: uuid.map(str::to_string),
        parent_uuid: None,
        timestamp: ts.map(str::to_string),
        is_meta: None,
        is_compact_summary: None,
        cwd: None,
        version: None,
        git_branch: None,
        session_id: None,
        message: text.map(|t| Message {
            role: Some(kind.to_string()),
            content: Some(Content::Text(t.to_string())),
            model: None,
            id: None,
            usage: None,
        }),
        content: None,
        compact_metadata: None,
        hook_context: None,
    }
}

fn boundary(uuid: Option<&str>) -> Record {
    rec("system", Some("compact_boundary"), uuid, Some("2026-06-07T05:10:00.000Z"), None)
}

#[test]
fn clone_probe_arms_and_origin_join_edges() {
    // Lines that do not parse never reach the probe; the boundary after them detects.
    let clone = vec![boundary(Some(BX))];
    assert_eq!(clone_head_boundary(&clone).as_deref(), Some(BX), "garbage before the boundary is walked past");
    // An empty transcript probes to a clean None.
    assert_eq!(clone_head_boundary(&Vec::new()), None);
    // A boundary with an empty-string uuid detects nothing either.
    assert_eq!(clone_head_boundary(&vec![boundary(Some(""))]), None);
    // A boundary with no uuid detects nothing.
    assert_eq!(clone_head_boundary(&vec![boundary(None)]), None);

    // Origin join: the sibling quotes the uuid in prose before carrying the real record.
    let prose = rec("user", None, Some("u1"), Some("2026-06-07T05:00:00.000Z"), Some(&format!("discussing {BX} in prose")));
    let origin = OriginCandidate {
        session_id: "o1".to_string(),
        carriers: vec![prose.clone(), boundary(Some(BX))],
        head_boundary: clone_head_boundary(&vec![prose.clone(), boundary(Some(BX))]),
    };
    assert_eq!(clone_origin(&vec![origin], BX).as_deref(), Some("o1"), "prose quote is skipped, the record wins");

    // A prose-only sibling can never be the origin.
    let bystander = OriginCandidate {
        session_id: "b1".to_string(),
        carriers: vec![rec("user", None, Some("u1"), Some("2026-06-07T05:00:00.000Z"), Some(&format!("only prose about {BX}")))],
        head_boundary: None,
    };
    assert_eq!(clone_origin(&vec![bystander], BX), None);
}

#[test]
fn a_co_clone_is_not_the_origin() {
    let co = OriginCandidate {
        session_id: "c2".to_string(),
        carriers: vec![boundary(Some(BX))],
        head_boundary: Some(BX.to_string()),
    };
    let real = OriginCandidate {
        session_id: "o9".to_string(),
        carriers: vec![boundary(Some(BX))],
        head_boundary: None,
    };
    assert_eq!(clone_origin(&vec![co, real], BX).as_deref(), Some("o9"));
}

#[test]
fn nearest_checkpoint_takes_the_first_least_distance() {
    assert_eq!(nearest_checkpoint_close(&vec![], 1000), None);
    assert_eq!(nearest_checkpoint_close(&vec![500, 1200, 800], 1000), Some((200, -200)));
    assert_eq!(nearest_checkpoint_close(&vec![800, 1200], 1000), Some((200, 200)));
    assert_eq!(nearest_checkpoint_close(&vec![i64::MIN, 990], 1000), Some((10, 10)));
}

#[test]
fn clear_join_picks_the_nearest_checkpoint_within_the_window() {
    // 2026-06-07T05:00:00Z is 1780808400000 ms.
    let t: i64 = 1780808400000;
    let sibs = vec![
        ("far".to_string(), vec![t - 5000]),
        ("near".to_string(), vec![t - 164, t - 90000]),
        ("later".to_string(), vec![t + 900]),
    ];
    let j = cleared_from_origin("2026-06-07T05:00:00Z", &sibs);
    assert_eq!(j.cleared_from.as_deref(), Some("near"));
    assert_eq!(j.distance_ms, Some(164));
    assert!(!j.after);
    assert!(j.candidates.is_empty());

    let tied = vec![("b".to_string(), vec![t + 100]), ("a".to_string(), vec![t - 100])];
    let j2 = cleared_from_origin("2026-06-07T05:00:00Z", &tied);
    assert_eq!(j2.cleared_from, None);
    assert_eq!(j2.distance_ms, Some(100));
    assert_eq!(j2.candidates, vec!["a".to_string(), "b".to_string()]);
    assert!(!j2.after, "the first in id order closes before the wrapper");

    let none = cleared_from_origin("not a time", &sibs);
    assert_eq!(none.cleared_from, None);
    assert_eq!(none.distance_ms, None);
    let out_of_window = cleared_from_origin("2026-06-07T05:00:00Z", &vec![("far".to_string(), vec![t - 5000])]);
    assert_eq!(out_of_window.distance_ms, None);
}
