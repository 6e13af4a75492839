use rdrillog::decimal::{int_decimal_string, nat_decimal_string, parse_i64, parse_u8};
use rdrillog::graph::{next_view, top_entries, ChartView, TOP_BARS};
use rdrillog::text::{has_char_in, CharClass};
use rdrillog::web_server::{parse_ipv4_octets, refresh_step, serve_response, RefreshAction};

#[test]
fn decimal_i64() {
    assert_eq!(parse_i64("0"), Some(0));
    assert_eq!(parse_i64("+42"), Some(42));
    assert_eq!(parse_i64("-42"), Some(-42));
    assert_eq!(parse_i64("9223372036854775807"), Some(i64::MAX));
    assert_eq!(parse_i64("-9223372036854775808"), Some(i64::MIN));
    assert_eq!(parse_i64("9223372036854775808"), None);
    assert_eq!(parse_i64(""), None);
    assert_eq!(parse_i64("-"), None);
    assert_eq!(parse_i64("12a"), None);
    assert_eq!(parse_i64("١٢"), None);
}

#[test]
fn decimal_u8() {
    assert_eq!(parse_u8("255"), Some(255));
    assert_eq!(parse_u8("007"), Some(7));
    assert_eq!(parse_u8("+1"), Some(1));
    assert_eq!(parse_u8("256"), None);
    assert_eq!(parse_u8("-1"), None);
    assert_eq!(parse_u8("+"), None);
    assert_eq!(parse_u8(""), None);
}

#[test]
fn ipv4_octets() {
    assert_eq!(parse_ipv4_octets("127.0.0.1"), Some([127, 0, 0, 1]));
    assert_eq!(parse_ipv4_octets("254.254.254.254"), Some([254, 254, 254, 254]));
    assert_eq!(parse_ipv4_octets("1.2.3.4.5"), Some([1, 2, 3, 4]));
    assert_eq!(parse_ipv4_octets("1.2.3"), None);
    assert_eq!(parse_ipv4_octets("1.2.3.256"), None);
    assert_eq!(parse_ipv4_octets("1.2.3.4.x"), None);
    assert_eq!(parse_ipv4_octets("::1"), None);
    assert_eq!(parse_ipv4_octets(""), None);
    assert_eq!(parse_ipv4_octets("1..3.4"), None);
}

#[test]
fn served_answers() {
    let ok = serve_response(Some("a\nb\n".to_string()));
    assert_eq!(ok.status, 200);
    assert_eq!(ok.body, "a\nb\n");
    assert!(ok.plain_text);
    let missing = serve_response(None);
    assert_eq!(missing.status, 404);
    assert_eq!(missing.body, "Fichier introuvable");
    assert!(!missing.plain_text);
}

#[test]
fn refresh_waits_once_then_reparses() {
    assert_eq!(refresh_step(true), (RefreshAction::Wait, false));
    assert_eq!(refresh_step(false), (RefreshAction::Reparse, false));
}

#[test]
fn chart_keys() {
    assert_eq!(next_view(ChartView::Bar, 'q'), None);
    assert_eq!(next_view(ChartView::Gauge, 'q'), None);
    assert_eq!(next_view(ChartView::Bar, 't'), Some(ChartView::Trend));
    assert_eq!(next_view(ChartView::Trend, 'b'), Some(ChartView::Bar));
    assert_eq!(next_view(ChartView::Bar, 'g'), Some(ChartView::Gauge));
    assert_eq!(next_view(ChartView::Trend, 'x'), Some(ChartView::Trend));
}

#[test]
fn top_bars_sorted_and_stable() {
    let data: Vec<(String, u64)> = vec![
        ("a".to_string(), 1),
        ("b".to_string(), 5),
        ("c".to_string(), 3),
        ("d".to_string(), 5),
        ("e".to_string(), 1),
        ("f".to_string(), 2),
        ("g".to_string(), 3),
    ];
    let top = top_entries(&data, TOP_BARS);
    let names: Vec<&str> = top.iter().map(|p| p.0.as_str()).collect();
    assert_eq!(names, vec!["b", "d", "c", "g", "f"]);
    assert_eq!(top_entries(&data, 0), vec![]);
    assert_eq!(top_entries(&data[..2].to_vec(), 5).len(), 2);
}

#[test]
fn char_scans() {
    assert!(has_char_in("a/b", CharClass::Exactly('/')));
    assert!(!has_char_in("ab", CharClass::Exactly('/')));
    assert!(has_char_in("a|b", CharClass::ForbiddenInFilename));
}

#[test]
fn decimal_strings() {
    assert_eq!(nat_decimal_string(0), "0");
    assert_eq!(nat_decimal_string(2024), "2024");
    assert_eq!(int_decimal_string(-17), "-17");
    assert_eq!(int_decimal_string(i32::MIN), "-2147483648");
    assert_eq!(int_decimal_string(i32::MAX), "2147483647");
}
