use rdrillog::sanitizer::{
    bchart_format, bucket_histogram, bucket_start, check_ip, empty_str_check, filename_check, gchart_format,
    port_check, regex_verif, schart_format, strict_matchonly, validate_options, wb_file_path_check, Options,
    SanitizeError,
};
use rdrillog::dates::DatePatterns;

fn strs(v: &[&str]) -> Vec<String> {
    v.iter().map(|s| s.to_string()).collect()
}

#[test]
fn find_pattern_required() {
    assert_eq!(regex_verif("", true), Err(SanitizeError::MissingFindPattern));
    assert_eq!(regex_verif("", false), Ok(()));
    assert_eq!(regex_verif("x", true), Ok(()));
}

#[test]
fn empty_values() {
    assert_eq!(empty_str_check("", true), Err(SanitizeError::MissingValue));
    assert_eq!(empty_str_check("", false), Ok(""));
    assert_eq!(empty_str_check("log.txt", true), Ok("log.txt"));
}

#[test]
fn served_file_without_slash() {
    assert_eq!(wb_file_path_check("dir/out.txt", true), Err(SanitizeError::SlashInServedFile));
    assert_eq!(wb_file_path_check("dir/out.txt", false), Ok(()));
    assert_eq!(wb_file_path_check("out.txt", true), Ok(()));
    assert_eq!(wb_file_path_check("logs\\out.txt", true), Err(SanitizeError::SlashInServedFile));
    assert_eq!(wb_file_path_check("logs\\out.txt", false), Ok(()));
}

#[test]
fn ip_checks() {
    assert_eq!(check_ip("10.0.0.1", true), Ok(()));
    assert_eq!(check_ip("10.0.0", false), Err(SanitizeError::InvalidIp));
    assert_eq!(check_ip("fe80::1", true), Err(SanitizeError::NotIpv4));
    assert_eq!(check_ip("::1", true), Err(SanitizeError::NotIpv4));
    assert_eq!(check_ip("254.254.254.254", true), Ok(()));
}

#[test]
fn ports() {
    assert_eq!(port_check(0), Err(SanitizeError::MissingPort));
    assert_eq!(port_check(1), Ok(()));
    assert_eq!(port_check(8080), Ok(()));
    assert_eq!(port_check(65534), Ok(()));
    assert_eq!(port_check(65535), Err(SanitizeError::PortOutOfRange));
}

#[test]
fn filenames() {
    assert_eq!(filename_check("output.txt"), Ok(()));
    assert_eq!(filename_check("access-2024_01.log"), Ok(()));
    for bad in ["a/b", "a\\b", "a=b", "a:b", "a*", "a?", "a\"b", "a'b", "a,b", "a;b", "a!", "{a}", "[a]", "(a)", "<a>", "a|b"] {
        assert_eq!(filename_check(bad), Err(SanitizeError::ForbiddenFilenameChar), "{}", bad);
    }
}

#[test]
fn strict_and_match_only() {
    assert_eq!(strict_matchonly(true, "$#$$##$$#$#"), Ok(()));
    assert_eq!(strict_matchonly(false, "x"), Ok(()));
    assert_eq!(strict_matchonly(true, "x"), Err(SanitizeError::StrictWithMatchOnly));
}

fn options() -> Options {
    Options {
        elem_to_find: "error".to_string(),
        match_only: "$#$$##$$#$#".to_string(),
        output: "output.txt".to_string(),
        logfile: "app.log".to_string(),
        strict: false,
        webserver: false,
        ip: "254.254.254.254".to_string(),
        port: 0,
    }
}

#[test]
fn option_validation_order() {
    assert_eq!(validate_options(&options(), true), Ok(()));
    let mut o = options();
    o.elem_to_find = String::new();
    o.logfile = String::new();
    assert_eq!(validate_options(&o, true), Err(SanitizeError::MissingFindPattern));
    let mut o = options();
    o.logfile = String::new();
    assert_eq!(validate_options(&o, true), Err(SanitizeError::MissingValue));
    let mut o = options();
    o.logfile = "../app.log".to_string();
    assert_eq!(validate_options(&o, true), Err(SanitizeError::ForbiddenFilenameChar));
    let mut o = options();
    o.strict = true;
    o.match_only = "x".to_string();
    assert_eq!(validate_options(&o, true), Err(SanitizeError::StrictWithMatchOnly));
    let mut o = options();
    o.webserver = true;
    assert_eq!(validate_options(&o, true), Err(SanitizeError::MissingPort));
    o.port = 8080;
    assert_eq!(validate_options(&o, true), Ok(()));
    assert_eq!(validate_options(&o, false), Err(SanitizeError::InvalidIp));
    o.ip = "::1".to_string();
    assert_eq!(validate_options(&o, true), Err(SanitizeError::NotIpv4));
    o.ip = String::new();
    assert_eq!(validate_options(&o, false), Err(SanitizeError::MissingValue));
}

#[test]
fn bar_counts_are_occurrences() {
    let logs = strs(&["a", "\n", "b", "\n", "a", "\n", "a", "\n"]);
    let bars = bchart_format(logs);
    assert_eq!(bars, vec![("a".to_string(), 3), ("b".to_string(), 1)]);
    let total: u64 = bars.iter().map(|b| b.1).sum();
    assert_eq!(total, 4);
}

#[test]
fn bar_counts_of_empty_list() {
    assert!(bchart_format(Vec::new()).is_empty());
    assert!(bchart_format(strs(&["\n", "\n"])).is_empty());
}

#[test]
fn gauge_percentages() {
    let logs = strs(&["a", "\n", "b", "\n", "c", "\n"]);
    assert_eq!(gchart_format(logs.clone(), 12), 25);
    assert_eq!(gchart_format(logs.clone(), 3), 100);
    assert_eq!(gchart_format(logs.clone(), 2), 66);
    assert_eq!(gchart_format(Vec::new(), 7), 0);
}

#[test]
fn bucket_starts_follow_rust_remainder() {
    assert_eq!(bucket_start(125, 60), 120);
    assert_eq!(bucket_start(-30, 60), 0);
    assert_eq!(bucket_start(-90, 60), -60);
    assert_eq!(bucket_start(125, -60), 120);
    assert_eq!(bucket_start(i64::MIN, -1), i64::MIN);
}

#[test]
fn histogram_counts_per_period() {
    let ts = vec![130, 5, 61, 119, 3, 600];
    let hist = bucket_histogram(&ts, 60);
    assert_eq!(hist, vec![(0, 2), (60, 2), (120, 1), (600, 1)]);
    let total: u64 = hist.iter().map(|p| p.1).sum();
    assert_eq!(total as usize, ts.len());
    assert!(bucket_histogram(&Vec::new(), 60).is_empty());
}

#[test]
fn trend_of_dated_entries() {
    let logs = strs(&[
        "127.0.0.1 - - [10/Oct/2000:13:55:36 -0700] \"GET /\"",
        "\n",
        "2000-10-10T20:55:40Z started",
        "\n",
        "no date here",
        "\n",
        "epoch 0971211400 done",
        "\n",
    ]);
    let counts = schart_format(logs, 60).unwrap();
    assert_eq!(counts, vec![2, 1]);
}

#[test]
fn line_timestamps_of_each_format() {
    let p = DatePatterns::new().unwrap();
    assert_eq!(p.line_timestamp("x [10/Oct/2000:13:55:36 -0700] y", 2024), Some(971211336));
    assert_eq!(p.line_timestamp("at 2024-03-01T12:00:00Z", 2024), Some(1709294400));
    assert_eq!(p.line_timestamp("at 2024-03-01T12:00:00+01:00", 2024), Some(1709290800));
    assert_eq!(p.line_timestamp("stamp 1700000000 end", 2024), Some(1700000000));
    assert_eq!(p.line_timestamp("stamp 17000000001 end", 2024), None);
    assert_eq!(p.line_timestamp("nothing", 2024), None);
    let syslog = p.line_timestamp("Mar 10 12:00:00 host sshd", 2024).unwrap();
    assert!((syslog - 1710072000).abs() < 86400);
    let syslog_2000 = p.line_timestamp("Mar 10 12:00:00 host sshd", 2000).unwrap();
    assert!((syslog_2000 - 952689600).abs() < 86400);
    assert!(p.line_timestamp("2024-03-01 12:00:00 query", 2024).is_some());
    assert_eq!(p.line_timestamp("99/Zzz/2000:13:55:36 -0700", 2024), None);
}

#[test]
fn gauge_of_separators_only_with_empty_log() {
    assert_eq!(gchart_format(strs(&["\n"]), 0), 0);
    assert_eq!(gchart_format(strs(&["\n", "\n"]), 5), 0);
}

#[test]
fn bar_counts_ignore_order() {
    let a = bchart_format(strs(&["x", "\n", "y", "\n", "x", "\n"]));
    let b = bchart_format(strs(&["y", "\n", "x", "\n", "x", "\n"]));
    let mut a_sorted = a.clone();
    a_sorted.sort();
    let mut b_sorted = b.clone();
    b_sorted.sort();
    assert_eq!(a_sorted, b_sorted);
    assert_eq!(a, vec![("x".to_string(), 2), ("y".to_string(), 1)]);
    assert_eq!(b, vec![("y".to_string(), 1), ("x".to_string(), 2)]);
}

#[test]
fn histogram_ignores_order() {
    assert_eq!(bucket_histogram(&vec![600, 5, 61], 60), bucket_histogram(&vec![61, 600, 5], 60));
}

#[test]
fn trend_ignores_order_of_lines() {
    let a = strs(&["1700000000 a", "\n", "1700000100 b", "\n", "1700000010 c", "\n"]);
    let b = strs(&["1700000010 c", "\n", "1700000000 a", "\n", "1700000100 b", "\n"]);
    assert_eq!(schart_format(a, 60).unwrap(), schart_format(b, 60).unwrap());
}

#[test]
fn local_dates_are_within_a_day_of_utc() {
    let p = DatePatterns::new().unwrap();
    let sql = p.line_timestamp("2024-03-01 12:00:00 query", 2024).unwrap();
    assert!((sql - 1709294400).abs() < 86400);
}
