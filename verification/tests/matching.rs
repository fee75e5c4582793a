use csift::search::filter::LabelFilter;
use csift::search::refusals::{at_pattern_refusal, empty_filter_refusal};
use csift::search::matcher::{build_matcher, json_escapes_in_string, required_literal, MarkerSelection, Prefilter};
use csift::search::needles::required_needles;

fn sel() -> MarkerSelection {
    MarkerSelection {
        compaction_boundary: false,
        turn_duration: false,
        stop_hooks: false,
        snapshot: false,
        resolve_persisted: false,
    }
}

#[test]
fn required_literal_only_for_plain_patterns() {
    assert_eq!(required_literal("carry"), Some(b"carry".to_vec()));
    assert!(required_literal("ca.ry").is_none());
    assert!(required_literal("a|b").is_none());
}

#[test]
fn required_literal_rejects_json_escaped_chars() {
    assert!(required_literal("Say\"Xello").is_none(), "a quote-containing literal must not be prefiltered");
    assert!(required_literal("a\tb").is_none(), "tab is JSON-escaped");
    assert!(required_literal("a\nb").is_none(), "newline is JSON-escaped");
    assert_eq!(required_literal("café🛠"), Some("café🛠".as_bytes().to_vec()));
}

#[test]
fn json_escaped_chars_are_quote_controls_and_del() {
    assert!(json_escapes_in_string('"'));
    assert!(json_escapes_in_string('\u{1f}'));
    assert!(json_escapes_in_string('\u{7f}'));
    assert!(!json_escapes_in_string('a'));
    assert!(!json_escapes_in_string('\\'));
}

#[test]
fn smart_case_lowercase_is_insensitive() {
    let m = build_matcher("carry", false, false, sel()).unwrap();
    assert!(m.is_match("the CARRY logic"));
    assert!(m.is_match("the carry logic"));
}

#[test]
fn smart_case_uppercase_is_sensitive() {
    let m = build_matcher("Carry", false, false, sel()).unwrap();
    assert!(m.is_match("the Carry logic"));
    assert!(!m.is_match("the carry logic"));
}

#[test]
fn ignore_case_overrides_smart_case() {
    let m = build_matcher("Carry", true, false, sel()).unwrap();
    assert!(m.is_match("the carry logic"));
}

#[test]
fn empty_pattern_is_pure_filter_matches_all() {
    let m = build_matcher("", false, false, sel()).unwrap();
    assert!(m.is_pure_filter());
    assert!(m.is_match("literally anything"));
    assert_eq!(m.locate("x"), Some(None));
}

#[test]
fn multiline_dot_crosses_newline() {
    let m = build_matcher("foo.*bar", false, true, sel()).unwrap();
    assert!(m.is_match("foo\nmiddle\nbar"));
    let m2 = build_matcher("foo.*bar", false, false, sel()).unwrap();
    assert!(!m2.is_match("foo\nbar"));
}

#[test]
fn an_invalid_pattern_is_refused_with_its_text() {
    let e = build_matcher("x(", false, false, sel()).unwrap_err();
    assert!(e.starts_with("invalid regex pattern: \"x(\""), "{e}");
}

#[test]
fn locate_gives_the_byte_span_of_the_first_match() {
    let m = build_matcher("hit", false, false, sel()).unwrap();
    assert_eq!(m.locate("a short hit here"), Some(Some((8, 11))));
    assert_eq!(m.locate("nothing"), None);
}

#[test]
fn prefilter_drops_lines_without_literal() {
    let m = build_matcher("Carry", false, false, sel()).unwrap();
    assert!(matches!(m.prefilter, Some(Prefilter::Literal(_))));
    assert!(m.line_may_match(b"...the Carry logic..."));
    assert!(!m.line_may_match(b"...nothing relevant..."));
    assert!(m.line_may_match(b"<task-notification> nothing relevant"), "a marker line passes");
    assert!(!m.file_may_match(b"a whole file without the needle"));
}

#[test]
fn caseless_prefilter_for_a_lowercase_pattern() {
    let m = build_matcher("carry", false, false, sel()).unwrap();
    assert!(matches!(m.prefilter, Some(Prefilter::CaselessLiteral(_))));
    assert!(m.line_may_match(b"...the CARRY logic..."));
    assert!(!m.line_may_match(b"...nothing relevant..."));
}

#[test]
fn prefilter_whitespace_literal_is_ineligible() {
    let m = build_matcher("hello world", false, false, sel()).unwrap();
    assert!(m.prefilter.is_none());
    let m2 = build_matcher("Hello World", false, false, sel()).unwrap();
    assert!(m2.prefilter.is_none(), "case-sensitive too");
    assert!(m.line_may_match(b"unrelated bytes"));
    assert!(m.file_may_match(b"unrelated bytes"));
}

#[test]
fn needles_of_an_alternation_are_the_union() {
    assert_eq!(
        required_needles("foo[0-9]+bar|bazzz"),
        Some(vec!["bar".to_string(), "bazzz".to_string()])
    );
}

#[test]
fn needles_of_a_concat_take_the_strongest_part() {
    assert_eq!(required_needles("ab\\d+longer"), Some(vec!["longer".to_string()]));
}

#[test]
fn an_optional_branch_kills_the_gate() {
    assert_eq!(required_needles("(abcd)?xy"), None);
    assert_eq!(required_needles("abcd|x"), None);
}

#[test]
fn quote_pattern_no_silent_drop_case_sensitive() {
    let m = build_matcher("Say\"Xello", false, false, sel()).unwrap();
    assert!(m.prefilter.is_none(), "no byte prefilter for a quote-containing literal");
    assert!(m.is_match("Say\"Xello there"));
    let line = br#"{"type":"user","message":{"role":"user","content":"Say\"Xello there"}}"#;
    assert!(m.line_may_match(line), "without a literal prefilter the line passes to the regex stage");
}

#[test]
fn a_plain_literal_is_its_own_needle() {
    assert_eq!(required_needles("carry"), Some(vec!["carry".to_string()]));
    assert_eq!(required_needles(""), None);
}

#[test]
fn the_marker_selection_adds_its_markers() {
    let mut s = sel();
    s.compaction_boundary = true;
    s.resolve_persisted = true;
    let (ver, con) = csift::search::matcher::synth_marker_finders(s);
    assert_eq!(ver.len(), 6);
    assert_eq!(ver[5], b"compact_boundary".to_vec());
    assert_eq!(con, vec![
        b"To tell you how to proceed".to_vec(),
        b"persistedOutputPath".to_vec(),
        b"Full output saved to:".to_vec(),
    ]);
}

#[test]
fn escape_regex_backslashes_each_meta_character() {
    assert_eq!(csift::search::engine::escape_regex("a.b*c"), "a\\.b\\*c");
    assert_eq!(csift::search::engine::escape_regex("x-y~z&"), "x\\-y\\~z\\&");
    assert_eq!(csift::search::engine::escape_regex("plain"), "plain");
}

#[test]
fn invalid_pattern_is_quoted_as_debug_quotes_it() {
    let pat = "a\t\"(\n\u{1b}";
    let e = build_matcher(pat, false, false, sel()).err().expect("refused");
    let want = format!("invalid regex pattern: {:?}: ", pat);
    assert!(e.starts_with(&want), "{e} / {want}");
}

#[test]
fn an_at_pattern_is_refused_with_the_escape_hint() {
    assert_eq!(
        at_pattern_refusal("@abc").expect("refused"),
        "search's FIRST positional is the regex PATTERN — targets come AFTER it: `csift search <PATTERN> @abc`. To literally match '@abc', escape the @: '\\@abc'."
    );
    assert_eq!(at_pattern_refusal("a@b"), None);
    assert_eq!(at_pattern_refusal(""), None);
}

#[test]
fn a_filter_that_can_never_match_is_refused() {
    let f = LabelFilter::new(&["user".to_string()], &["user".to_string()]);
    assert!(f.is_statically_empty());
    assert_eq!(
        empty_filter_refusal(&f).expect("refused"),
        "-T excludes every label the -t selection includes (-t [\"user\"] -T [\"user\"]) — this filter can never match anything. Loosen -T or widen -t."
    );
    let g = LabelFilter::new(&["user".to_string()], &["user.message".to_string()]);
    assert_eq!(empty_filter_refusal(&g), None);
    assert_eq!(empty_filter_refusal(&LabelFilter::all()), None);
}
