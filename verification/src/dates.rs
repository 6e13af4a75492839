use vstd::prelude::*;
use chrono::{DateTime, Datelike, Local, NaiveDateTime, TimeZone, Utc};
use crate::decimal::{int_decimal, int_decimal_string, parse_i64, parse_i64_spec};
use vstd::string::StringExecFns;
use crate::pattern::{Pattern, pattern_compiles, pattern_find_first};

verus! {

/// Dates of the common log format, such as `10/Oct/2000:13:55:36 -0700`.
pub const CMN_DATE_PATTERN: &'static str = r#"\d{2}/[A-Za-z]{3}/\d{4}:\d{2}:\d{2}:\d{2} [+\-]\d{4}"#;

/// ISO 8601 dates, such as `2024-03-01T12:00:00Z`.
pub const ISO8601_PATTERN: &'static str = r#"\d{4}-\d{2}-\d{2}T\d{2}:\d{2}:\d{2}(?:\.\d+)?(?:Z|[+\-]\d{2}:\d{2})"#;

/// Syslog dates, such as `Mar  1 12:00:00`, which carry no year.
pub const SYSLOG_PATTERN: &'static str = r#"[A-Z][a-z]{2} \d{1,2} \d{2}:\d{2}:\d{2}"#;

/// SQL dates, such as `2024-03-01 12:00:00`, in local time.
pub const SQL_DATE_PATTERN: &'static str = r#"\d{4}-\d{2}-\d{2} \d{2}:\d{2}:\d{2}"#;

/// UNIX timestamps of ten digits.
pub const TIMESTAMP_PATTERN: &'static str = r#"\b\d{10}\b"#;

/// The chrono format of common log dates.
pub const CMN_DATE_FORMAT: &'static str = "%d/%b/%Y:%H:%M:%S %z";

/// The chrono format of syslog dates once the year is put in front.
pub const SYSLOG_FORMAT: &'static str = "%Y %b %e %H:%M:%S";

/// The chrono format of SQL dates.
pub const SQL_DATE_FORMAT: &'static str = "%Y-%m-%d %H:%M:%S";

/// The timestamp (seconds since the UNIX epoch) of what
/// `chrono::DateTime::parse_from_str` reads from `s` with the format `fmt`,
/// if it reads a date.
pub uninterp spec fn chrono_parse_from_str(s: Seq<char>, fmt: Seq<char>) -> Option<i64>;

/// The timestamp of what `str::parse::<chrono::DateTime<Utc>>` (chrono's
/// `FromStr`) reads from `s`, if it reads a date.
pub uninterp spec fn chrono_parse_utc(s: Seq<char>) -> Option<i64>;

/// The seconds since the UNIX epoch, the date read as UTC, of what
/// `chrono::NaiveDateTime::parse_from_str` reads from `s` with the format
/// `fmt`, if it reads a date.
pub uninterp spec fn chrono_naive_parse(s: Seq<char>, fmt: Seq<char>) -> Option<i64>;

/// Calls `chrono::DateTime::parse_from_str` and takes the timestamp of the
/// date read. Claimed: the result is the named result for `s` and `fmt`.
#[verifier::external_body]
fn parse_offset_date(s: &str, fmt: &str) -> (res: Option<i64>)
    ensures
        res == chrono_parse_from_str(s@, fmt@),
{
    DateTime::parse_from_str(s, fmt).ok().map(|dt| dt.timestamp())
}

/// Calls chrono's `FromStr` for `DateTime<Utc>` and takes the timestamp of
/// the date read. Claimed: the result is the named result for `s`.
#[verifier::external_body]
fn parse_utc_date(s: &str) -> (res: Option<i64>)
    ensures
        res == chrono_parse_utc(s@),
{
    s.parse::<DateTime<Utc>>().ok().map(|dt| dt.timestamp())
}

/// Calls `chrono::NaiveDateTime::parse_from_str` and takes the date read as
/// seconds since the epoch, read as UTC. Claimed: the result is the named
/// result for `s` and `fmt`.
#[verifier::external_body]
fn parse_naive_date(s: &str, fmt: &str) -> (res: Option<i64>)
    ensures
        res == chrono_naive_parse(s@, fmt@),
{
    NaiveDateTime::parse_from_str(s, fmt).ok().map(|n| n.and_utc().timestamp())
}

/// Calls `chrono::Local::now` and takes its year. Nothing is claimed of
/// the result: it depends on the clock and the local time zone.
#[verifier::external_body]
pub(crate) fn local_current_year() -> (res: i32) {
    Local::now().year()
}

/// Calls `chrono::Local.from_local_datetime` on the date and time that
/// `naive_secs` gives (seconds since the epoch, read as UTC) and takes the
/// timestamp when the local time is unique. Whether one comes back, and
/// which, depends on the local time zone; claimed only: it lies within a
/// day of `naive_secs`, since a local offset (chrono's `FixedOffset`) is
/// below 24 hours.
#[verifier::external_body]
fn local_date_timestamp(naive_secs: i64) -> (res: Option<i64>)
    ensures
        res matches Some(t) ==> naive_secs - 86400 < t < naive_secs + 86400,
{
    DateTime::from_timestamp(naive_secs, 0)
        .and_then(|d| Local.from_local_datetime(&d.naive_utc()).single())
        .map(|d| d.timestamp())
}

/// Calls `chrono::NaiveDateTime::from_timestamp_opt` and takes the
/// timestamp of the UTC date it gives. Claimed: a date comes back with the
/// same timestamp, and one does come back for timestamps within ten
/// thousand billion seconds of the epoch (chrono covers years up to
/// 262143 either side).
#[verifier::external_body]
#[allow(deprecated)]
fn utc_date_from_timestamp(ts: i64) -> (res: Option<i64>)
    ensures
        res matches Some(t) ==> t == ts,
        -1_000_000_000_000 <= ts <= 1_000_000_000_000 ==> res is Some,
{
    NaiveDateTime::from_timestamp_opt(ts, 0).map(|n| DateTime::<Utc>::from_utc(n, Utc).timestamp())
}

/// A year, a space and a date.
fn year_prefixed(year: i32, date: &str) -> (res: String)
    ensures
        res@ == int_decimal(year as int) + seq![' '] + date@,
{
    let mut s = int_decimal_string(year);
    let space = " ";
    proof {
        reveal_strlit(" ");
    }
    assert(space@ =~= seq![' ']);
    s.append(space);
    s.append(date);
    s
}

/// Which kind of date a log line was found to hold.
#[derive(Debug, Clone, Copy, PartialEq, Eq, Structural)]
pub enum DateFormat {
    CommonLog,
    Iso8601,
    Syslog,
    Sql,
    Timestamp,
}

/// The first kind of date, in the order common log, ISO 8601, syslog, SQL,
/// timestamp, whose pattern finds something in `line`, with the text found.
pub open spec fn date_match(line: Seq<char>) -> Option<(DateFormat, Seq<char>)> {
    match pattern_find_first(CMN_DATE_PATTERN@, line) {
        Some(m) => Some((DateFormat::CommonLog, m)),
        None => match pattern_find_first(ISO8601_PATTERN@, line) {
            Some(m) => Some((DateFormat::Iso8601, m)),
            None => match pattern_find_first(SYSLOG_PATTERN@, line) {
                Some(m) => Some((DateFormat::Syslog, m)),
                None => match pattern_find_first(SQL_DATE_PATTERN@, line) {
                    Some(m) => Some((DateFormat::Sql, m)),
                    None => match pattern_find_first(TIMESTAMP_PATTERN@, line) {
                        Some(m) => Some((DateFormat::Timestamp, m)),
                        None => None,
                    },
                },
            },
        },
    }
}

/// What the timestamp taken from a log line may be. Common log and ISO 8601
/// dates are read by chrono; a ten-digit timestamp is read as a decimal
/// number; syslog dates carry no year, so `year` is put in front before
/// chrono reads them. Syslog and SQL dates are local times, so their
/// timestamp depends on the local time zone: it is within a day of the
/// date read as UTC, and a date that chrono cannot read gives none.
pub open spec fn stamp_allowed(line: Seq<char>, year: i32, stamp: Option<i64>) -> bool {
    match date_match(line) {
        None => stamp is None,
        Some((DateFormat::CommonLog, m)) => stamp == chrono_parse_from_str(m, CMN_DATE_FORMAT@),
        Some((DateFormat::Iso8601, m)) => stamp == chrono_parse_utc(m),
        Some((DateFormat::Syslog, m)) => match chrono_naive_parse(
            int_decimal(year as int) + seq![' '] + m,
            SYSLOG_FORMAT@,
        ) {
            None => stamp is None,
            Some(n) => stamp matches Some(t) ==> n - 86400 < t < n + 86400,
        },
        Some((DateFormat::Sql, m)) => match chrono_naive_parse(m, SQL_DATE_FORMAT@) {
            None => stamp is None,
            Some(n) => stamp matches Some(t) ==> n - 86400 < t < n + 86400,
        },
        Some((DateFormat::Timestamp, m)) => match parse_i64_spec(m) {
            None => stamp is None,
            Some(t) => stamp == Some(t) || (stamp is None && !(-1_000_000_000_000 <= t
                <= 1_000_000_000_000)),
        },
    }
}

/// Whether the regex engine accepts all five date patterns.
pub open spec fn date_patterns_compile() -> bool {
    &&& pattern_compiles(CMN_DATE_PATTERN@)
    &&& pattern_compiles(ISO8601_PATTERN@)
    &&& pattern_compiles(SYSLOG_PATTERN@)
    &&& pattern_compiles(SQL_DATE_PATTERN@)
    &&& pattern_compiles(TIMESTAMP_PATTERN@)
}

/// The five date patterns, compiled.
pub struct DatePatterns {
    common_log: Pattern,
    iso8601: Pattern,
    syslog: Pattern,
    sql: Pattern,
    timestamp: Pattern,
}

impl DatePatterns {
    /// Each pattern was compiled from its date pattern.
    pub closed spec fn wf(&self) -> bool {
        &&& self.common_log@ == CMN_DATE_PATTERN@
        &&& self.iso8601@ == ISO8601_PATTERN@
        &&& self.syslog@ == SYSLOG_PATTERN@
        &&& self.sql@ == SQL_DATE_PATTERN@
        &&& self.timestamp@ == TIMESTAMP_PATTERN@
    }

    /// Compiles the five date patterns; `None` when the regex engine refuses
    /// one of them.
    pub fn new() -> (res: Option<DatePatterns>)
        ensures
            res is Some <==> date_patterns_compile(),
            res matches Some(p) ==> p.wf(),
    {
        let common_log = Pattern::new(CMN_DATE_PATTERN)?;
        let iso8601 = Pattern::new(ISO8601_PATTERN)?;
        let syslog = Pattern::new(SYSLOG_PATTERN)?;
        let sql = Pattern::new(SQL_DATE_PATTERN)?;
        let timestamp = Pattern::new(TIMESTAMP_PATTERN)?;
        Some(DatePatterns { common_log, iso8601, syslog, sql, timestamp })
    }

    /// The timestamp of the first date found in a log line, if any is found
    /// and read; a syslog date is taken to be in `year`.
    pub fn line_timestamp(&self, line: &str, year: i32) -> (res: Option<i64>)
        requires
            self.wf(),
        ensures
            stamp_allowed(line@, year, res),
    {
        if let Some(m) = self.common_log.find_first(line) {
            return parse_offset_date(m.as_str(), CMN_DATE_FORMAT);
        }
        if let Some(m) = self.iso8601.find_first(line) {
            return parse_utc_date(m.as_str());
        }
        if let Some(m) = self.syslog.find_first(line) {
            let full = year_prefixed(year, m.as_str());
            return match parse_naive_date(full.as_str(), SYSLOG_FORMAT) {
                Some(naive) => local_date_timestamp(naive),
                None => None,
            };
        }
        if let Some(m) = self.sql.find_first(line) {
            return match parse_naive_date(m.as_str(), SQL_DATE_FORMAT) {
                Some(naive) => local_date_timestamp(naive),
                None => None,
            };
        }
        if let Some(m) = self.timestamp.find_first(line) {
            return match parse_i64(m.as_str()) {
                Some(ts) => utc_date_from_timestamp(ts),
                None => None,
            };
        }
        None
    }
}

} // verus!
