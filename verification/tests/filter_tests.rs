use rdrillog::parser::{parser, select_line, is_unset, LineSelection, ParserError, PatternRole};
use rdrillog::text::dedup_entries;

const UNSET: &str = "$#$$##$$#$#";

fn lines(v: &[&str]) -> Vec<String> {
    v.iter().map(|s| s.to_string()).collect()
}

fn strs(v: &[&str]) -> Vec<String> {
    lines(v)
}

#[test]
fn keeps_matching_lines_with_separators() {
    let log = lines(&["GET /index 200", "POST /login 500", "GET /about 404"]);
    let out = parser(&log, "GET", UNSET, UNSET, false, true, UNSET).unwrap();
    assert_eq!(out, strs(&["GET /index 200", "\n", "GET /about 404", "\n"]));
}

#[test]
fn exclude_pattern_drops_lines() {
    let log = lines(&["GET /index 200", "POST /login 500", "GET /about 404"]);
    let out = parser(&log, "GET", "404", UNSET, false, true, UNSET).unwrap();
    assert_eq!(out, strs(&["GET /index 200", "\n"]));
}

#[test]
fn include_pattern_adds_lines() {
    let log = lines(&["GET /index 200", "POST /login 500", "PUT /x 201"]);
    let out = parser(&log, "GET", UNSET, "POST", false, true, UNSET).unwrap();
    assert_eq!(out, strs(&["GET /index 200", "\n", "POST /login 500", "\n"]));
}

#[test]
fn strict_mode_keeps_only_matches() {
    let log = lines(&["user=alice id=1 user=bob", "nothing here"]);
    let out = parser(&log, r"user=\w+", UNSET, UNSET, true, true, UNSET).unwrap();
    assert_eq!(out, strs(&["user=alice", "\n", "user=bob", "\n"]));
}

#[test]
fn match_only_refines_matches() {
    let log = lines(&["ip 10.0.0.1 port 80", "ip 10.0.0.2 port 22"]);
    let out = parser(&log, r"ip \S+", UNSET, UNSET, false, true, r"\d+\.\d+\.\d+\.\d+").unwrap();
    assert_eq!(out, strs(&["10.0.0.1", "\n", "10.0.0.2", "\n"]));
}

#[test]
fn duplicates_removed_when_unwanted() {
    let log = lines(&["error a", "error b", "error a", "info c"]);
    let kept = parser(&log, "error", UNSET, UNSET, false, true, UNSET).unwrap();
    assert_eq!(kept, strs(&["error a", "\n", "error b", "\n", "error a", "\n"]));
    let once = parser(&log, "error", UNSET, UNSET, false, false, UNSET).unwrap();
    assert_eq!(once, strs(&["error a", "\n", "error b", "\n"]));
    assert_eq!(once, dedup_entries(&kept));
}

#[test]
fn invalid_patterns_are_reported_in_order() {
    let log = lines(&["a"]);
    assert_eq!(parser(&log, "(", "(", UNSET, false, true, UNSET), Err(ParserError::InvalidPattern(PatternRole::Find)));
    assert_eq!(parser(&log, "a", "[", UNSET, false, true, UNSET), Err(ParserError::InvalidPattern(PatternRole::Exclude)));
    assert_eq!(parser(&log, "a", UNSET, "(?P<", false, true, UNSET), Err(ParserError::InvalidPattern(PatternRole::Include)));
    assert_eq!(parser(&log, "a", UNSET, UNSET, false, true, "a{2,1}"), Err(ParserError::InvalidPattern(PatternRole::MatchOnly)));
}

#[test]
fn empty_log_gives_empty_list() {
    let out = parser(&Vec::new(), "x", UNSET, UNSET, false, false, UNSET).unwrap();
    assert!(out.is_empty());
}

#[test]
fn unset_marker_patterns_never_match() {
    let log = lines(&["$#$$##$$#$#", "plain"]);
    let out = parser(&log, UNSET, UNSET, UNSET, false, true, UNSET).unwrap();
    assert!(out.is_empty());
}

#[test]
fn line_selection_decisions() {
    assert_eq!(select_line(true, false, false, false), LineSelection::Whole);
    assert_eq!(select_line(false, false, true, false), LineSelection::Whole);
    assert_eq!(select_line(true, true, true, false), LineSelection::Skip);
    assert_eq!(select_line(false, false, false, true), LineSelection::Skip);
    assert_eq!(select_line(true, false, false, true), LineSelection::Matches);
    assert_eq!(select_line(false, false, true, true), LineSelection::Matches);
}

#[test]
fn unset_marker_detection() {
    assert!(is_unset("$#$$##$$#$#"));
    assert!(!is_unset("$#$$##$$#$"));
    assert!(!is_unset(""));
}

#[test]
fn dedup_is_idempotent() {
    let v = strs(&["a", "\n", "b", "\n", "a", "\n", "\n", "c", "\n"]);
    let once = dedup_entries(&v);
    assert_eq!(once, strs(&["a", "\n", "b", "\n", "c", "\n"]));
    assert_eq!(dedup_entries(&once), once);
}

#[test]
fn filter_output_alternates_entries_and_separators() {
    let log = lines(&["k=1 k=2", "k=3", "none"]);
    let out = parser(&log, r"k=\d", UNSET, UNSET, true, true, UNSET).unwrap();
    assert_eq!(out.len() % 2, 0);
    for (i, e) in out.iter().enumerate() {
        if i % 2 == 1 {
            assert_eq!(e, "\n");
        } else {
            assert_ne!(e, "\n");
        }
    }
}

#[test]
fn entries_never_hold_newlines() {
    let log = lines(&["a1 b22 c333", "d4444"]);
    let out = parser(&log, r"[a-z]\d+", UNSET, UNSET, true, true, UNSET).unwrap();
    assert_eq!(out, strs(&["a1", "\n", "b22", "\n", "c333", "\n", "d4444", "\n"]));
    for (i, e) in out.iter().enumerate() {
        if i % 2 == 0 {
            assert!(!e.contains('\n'));
        }
    }
}

#[test]
fn without_duplicates_keeps_first_occurrences() {
    let log = lines(&["k=1 k=2", "k=2 k=3 k=1"]);
    let with = parser(&log, r"k=\d", UNSET, UNSET, true, true, UNSET).unwrap();
    let without = parser(&log, r"k=\d", UNSET, UNSET, true, false, UNSET).unwrap();
    let mut seen: Vec<String> = Vec::new();
    for (i, e) in with.iter().enumerate() {
        if i % 2 == 0 && !seen.contains(e) {
            seen.push(e.clone());
        }
    }
    let expected: Vec<String> = seen.into_iter().flat_map(|v| vec![v, "\n".to_string()]).collect();
    assert_eq!(without, expected);
    assert_eq!(without, strs(&["k=1", "\n", "k=2", "\n", "k=3", "\n"]));
}
