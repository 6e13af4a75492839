use vstd::prelude::*;
use crate::dates::{DatePatterns, date_patterns_compile, stamp_allowed, local_current_year};
use crate::parser::{is_unset, unset_marker};
use crate::web_server::{ipv4_octets, parse_ipv4_octets};
use crate::text::{
    newline, views, distinct_entries, count_of, has_char_where, has_char_in, in_class, CharClass,
    newline_string, find_string, lemma_distinct_entries, lemma_count_of_contains,
};

verus! {

broadcast use vstd::string::group_string_axioms;

/// Why the options given to the tool were refused.
#[derive(Debug, Clone, Copy, PartialEq, Eq, Structural)]
pub enum SanitizeError {
    /// The pattern to find is empty.
    MissingFindPattern,
    /// A required value is empty.
    MissingValue,
    /// The file served by the web server has a `/` in its name.
    SlashInServedFile,
    /// The address of the web server is not an IP address.
    InvalidIp,
    /// The address of the web server is not an IPv4 address of four octets.
    NotIpv4,
    /// The port of the web server is above 65534.
    PortOutOfRange,
    /// The port of the web server is 0.
    MissingPort,
    /// A file name holds a forbidden character.
    ForbiddenFilenameChar,
    /// Strict mode and a match-only pattern were both asked for.
    StrictWithMatchOnly,
}

/// Refuses an empty pattern to find when one is required.
pub fn regex_verif(regex: &str, required: bool) -> (res: Result<(), SanitizeError>)
    ensures
        res is Err <==> (regex@.len() == 0 && required),
        res matches Err(e) ==> e == SanitizeError::MissingFindPattern,
{
    if regex.is_empty() && required {
        Err(SanitizeError::MissingFindPattern)
    } else {
        Ok(())
    }
}

/// Refuses an empty value when it is required, and hands the value back
/// otherwise.
pub fn empty_str_check<'a>(s: &'a str, required: bool) -> (res: Result<&'a str, SanitizeError>)
    ensures
        match res {
            Ok(t) => t == s && !(s@.len() == 0 && required),
            Err(e) => e == SanitizeError::MissingValue && s@.len() == 0 && required,
        },
{
    if s.is_empty() && required {
        Err(SanitizeError::MissingValue)
    } else {
        Ok(s)
    }
}

/// Refuses, when the web server is on, an output file name with a `/` or
/// a `\` in it.
pub fn wb_file_path_check(filename: &str, webserver: bool) -> (res: Result<(), SanitizeError>)
    ensures
        res is Err <==> (webserver && (filename@.contains('/') || filename@.contains('\\'))),
        res matches Err(e) ==> e == SanitizeError::SlashInServedFile,
{
    let slash = has_char_in(filename, CharClass::Exactly('/'));
    let backslash = has_char_in(filename, CharClass::Exactly('\\'));
    proof {
        if filename@.contains('/') {
            let j = choose|j: int| 0 <= j < filename@.len() && filename@[j] == '/';
            assert((|c: char| in_class(CharClass::Exactly('/'), c))(filename@[j]));
        }
        if filename@.contains('\\') {
            let j = choose|j: int| 0 <= j < filename@.len() && filename@[j] == '\\';
            assert((|c: char| in_class(CharClass::Exactly('\\'), c))(filename@[j]));
        }
    }
    if (slash || backslash) && webserver {
        Err(SanitizeError::SlashInServedFile)
    } else {
        Ok(())
    }
}

/// Refuses a web server address that is not an IP address (`parses_as_ip`
/// tells whether it parses as one), and one that is not an IPv4 address
/// written as four dot-separated octets (IPv6 is not supported).
pub fn check_ip(ip: &str, parses_as_ip: bool) -> (res: Result<(), SanitizeError>)
    ensures
        match res {
            Ok(()) => parses_as_ip && ipv4_octets(ip@) is Some,
            Err(e) => if !parses_as_ip {
                e == SanitizeError::InvalidIp
            } else {
                e == SanitizeError::NotIpv4 && ipv4_octets(ip@) is None
            },
        },
{
    if !parses_as_ip {
        return Err(SanitizeError::InvalidIp);
    }
    if parse_ipv4_octets(ip).is_none() {
        Err(SanitizeError::NotIpv4)
    } else {
        Ok(())
    }
}

/// Accepts the ports from 1 to 65534.
pub fn port_check(port: u16) -> (res: Result<(), SanitizeError>)
    ensures
        match res {
            Ok(()) => 1 <= port <= 65534,
            Err(e) => (port > 65534 && e == SanitizeError::PortOutOfRange) || (port == 0 && e
                == SanitizeError::MissingPort),
        },
{
    if port > 65534 {
        Err(SanitizeError::PortOutOfRange)
    } else if port == 0 {
        Err(SanitizeError::MissingPort)
    } else {
        Ok(())
    }
}

/// Refuses a file name that holds one of `\ / = : * ? " ' , ; ! { } [ ] ( ) < > |`.
pub fn filename_check(filename: &str) -> (res: Result<(), SanitizeError>)
    ensures
        res is Err <==> has_char_where(filename@, |c: char| in_class(CharClass::ForbiddenInFilename, c)),
        res matches Err(e) ==> e == SanitizeError::ForbiddenFilenameChar,
{
    if has_char_in(filename, CharClass::ForbiddenInFilename) {
        Err(SanitizeError::ForbiddenFilenameChar)
    } else {
        Ok(())
    }
}

/// Refuses strict mode together with a match-only pattern.
pub fn strict_matchonly(strict: bool, match_only: &str) -> (res: Result<(), SanitizeError>)
    ensures
        res is Err <==> (strict && match_only@ != unset_marker()),
        res matches Err(e) ==> e == SanitizeError::StrictWithMatchOnly,
{
    if strict && !is_unset(match_only) {
        Err(SanitizeError::StrictWithMatchOnly)
    } else {
        Ok(())
    }
}

/// The options of a run that are checked before any work starts.
pub struct Options {
    /// The pattern to find.
    pub elem_to_find: String,
    /// The match-only pattern, or the unset marker.
    pub match_only: String,
    /// The output file.
    pub output: String,
    /// The log file.
    pub logfile: String,
    /// Whether strict mode is on.
    pub strict: bool,
    /// Whether the web server is on.
    pub webserver: bool,
    /// The address of the web server.
    pub ip: String,
    /// The port of the web server.
    pub port: u16,
}

/// A file name holds a forbidden character.
pub open spec fn has_forbidden_char(name: Seq<char>) -> bool {
    has_char_where(name, |c: char| in_class(CharClass::ForbiddenInFilename, c))
}

/// The verdict on the options, checked in this order: the pattern to find
/// is given, the log file is given, the output and log file names are
/// clean, strict mode and a match-only pattern are not both asked for, and,
/// with the web server on, its address is given, is an IP address
/// (`ip_parses`) written as an IPv4 address of four octets, its port is
/// from 1 to 65534 and the output file name has no `/` or `\`.
pub open spec fn options_verdict(o: Options, ip_parses: bool) -> Result<(), SanitizeError> {
    if o.elem_to_find@.len() == 0 {
        Err(SanitizeError::MissingFindPattern)
    } else if o.logfile@.len() == 0 {
        Err(SanitizeError::MissingValue)
    } else if has_forbidden_char(o.output@) || has_forbidden_char(o.logfile@) {
        Err(SanitizeError::ForbiddenFilenameChar)
    } else if o.strict && o.match_only@ != unset_marker() {
        Err(SanitizeError::StrictWithMatchOnly)
    } else if !o.webserver {
        Ok(())
    } else if o.ip@.len() == 0 {
        Err(SanitizeError::MissingValue)
    } else if !ip_parses {
        Err(SanitizeError::InvalidIp)
    } else if ipv4_octets(o.ip@) is None {
        Err(SanitizeError::NotIpv4)
    } else if o.port > 65534 {
        Err(SanitizeError::PortOutOfRange)
    } else if o.port == 0 {
        Err(SanitizeError::MissingPort)
    } else if o.output@.contains('/') || o.output@.contains('\\') {
        Err(SanitizeError::SlashInServedFile)
    } else {
        Ok(())
    }
}

/// Runs the checks on the options of a run in the order the tool does and
/// reports the first that fails. `ip_parses` tells whether the web server
/// address parses as an IP address.
pub fn validate_options(o: &Options, ip_parses: bool) -> (res: Result<(), SanitizeError>)
    ensures
        res == options_verdict(*o, ip_parses),
{
    regex_verif(o.elem_to_find.as_str(), true)?;
    empty_str_check(o.output.as_str(), false)?;
    empty_str_check(o.logfile.as_str(), true)?;
    filename_check(o.output.as_str())?;
    filename_check(o.logfile.as_str())?;
    strict_matchonly(o.strict, o.match_only.as_str())?;
    if o.webserver {
        empty_str_check(o.ip.as_str(), true)?;
        check_ip(o.ip.as_str(), ip_parses)?;
        port_check(o.port)?;
        wb_file_path_check(o.output.as_str(), o.webserver)?;
    }
    Ok(())
}

/// Each distinct entry of a filtered log list (separators aside), in order
/// of first occurrence, with the number of times it occurs.
pub fn bchart_format(logs: Vec<String>) -> (res: Vec<(String, u64)>)
    ensures
        res@.len() == distinct_entries(views(logs@)).len(),
        forall|k: int|
            0 <= k < res@.len() ==> {
                &&& (#[trigger] res@[k]).0@ == distinct_entries(views(logs@))[k]
                &&& res@[k].1 == count_of(views(logs@), distinct_entries(views(logs@))[k])
            },
{
    let sep = newline_string();
    let mut keys: Vec<String> = Vec::new();
    let mut counts: Vec<u64> = Vec::new();
    let mut i: usize = 0;
    while i < logs.len()
        invariant
            i <= logs.len(),
            sep@ == newline(),
            views(keys@) == distinct_entries(views(logs@).take(i as int)),
            counts@.len() == keys@.len(),
            forall|k: int|
                0 <= k < counts@.len() ==> #[trigger] counts@[k] == count_of(
                    views(logs@).take(i as int),
                    keys@[k]@,
                ),
        decreases logs.len() - i,
    {
        let ghost prefix = views(logs@).take(i as int);
        let ghost next = views(logs@).take(i + 1);
        let e = &logs[i];
        proof {
            assert(next.drop_last() == prefix);
            assert(next.last() == e@);
            lemma_distinct_entries(prefix);
            lemma_count_of_contains(prefix, e@);
            assert forall|k: int| 0 <= k < keys@.len() implies #[trigger] keys@[k]@ == views(keys@)[k] by {}
        }
        if !(*e == sep) {
            match find_string(&keys, e) {
                Some(k) => {
                    proof {
                        assert(views(keys@)[k as int] == e@);
                        assert(distinct_entries(prefix).contains(e@));
                        assert(prefix.contains(e@));
                        assert(counts@[k as int] <= prefix.len());
                    }
                    let c = counts[k];
                    counts.set(k, c + 1);
                    proof {
                        assert forall|j: int| 0 <= j < counts@.len() implies #[trigger] counts@[j]
                            == count_of(next, keys@[j]@) by {
                            if j != k {
                                assert(views(keys@)[j] != views(keys@)[k as int]);
                            }
                        }
                    }
                },
                None => {
                    proof {
                        assert(!prefix.contains(e@));
                        assert(count_of(prefix, e@) == 0);
                    }
                    keys.push(e.clone());
                    counts.push(1);
                    proof {
                        assert(views(keys@) == distinct_entries(prefix).push(e@));
                        assert forall|j: int| 0 <= j < counts@.len() implies #[trigger] counts@[j]
                            == count_of(next, keys@[j]@) by {
                            if j < counts@.len() - 1 {
                                assert(views(keys@)[j] == distinct_entries(prefix)[j]);
                                assert(distinct_entries(prefix).contains(keys@[j]@));
                            }
                        }
                    }
                },
            }
        }
        i = i + 1;
    }
    assert(views(logs@).take(logs.len() as int) == views(logs@));
    let mut res: Vec<(String, u64)> = Vec::new();
    let mut k: usize = 0;
    while k < keys.len()
        invariant
            k <= keys.len(),
            counts@.len() == keys@.len(),
            res@.len() == k,
            forall|j: int| 0 <= j < k ==> (#[trigger] res@[j]).0@ == keys@[j]@ && res@[j].1 == counts@[j],
        decreases keys.len() - k,
    {
        res.push((keys[k].clone(), counts[k]));
        k = k + 1;
    }
    proof {
        assert forall|j: int| 0 <= j < keys@.len() implies #[trigger] keys@[j]@ == views(keys@)[j] by {}
    }
    res
}

/// The number of entries of a filtered log list that are not separators.
pub open spec fn entry_count(logs: Seq<Seq<char>>) -> nat
    decreases logs.len(),
{
    if logs.len() == 0 {
        0
    } else {
        entry_count(logs.drop_last()) + if logs.last() == newline() { 0nat } else { 1nat }
    }
}

/// The percentage that the gauge shows: the entries found against the lines
/// of the log file, the smaller over the larger (0 when both are 0).
pub open spec fn gauge_percent(found: nat, total_lines: nat) -> nat {
    if found == 0 && total_lines == 0 {
        0
    } else if found >= total_lines {
        (100 * total_lines / found) as nat
    } else {
        (100 * found / total_lines) as nat
    }
}

/// The percentage of log lines that the filter found, out of the
/// `total_lines` lines of the log file (the smaller count over the larger).
pub fn gchart_format(logs: Vec<String>, total_lines: u64) -> (res: u16)
    requires
        logs@.len() > 0 || total_lines > 0,
        100 * (if entry_count(views(logs@)) < total_lines { entry_count(views(logs@)) } else { total_lines as nat }) <= u64::MAX,
    ensures
        res == gauge_percent(entry_count(views(logs@)), total_lines as nat),
        res <= 100,
{
    let sep = newline_string();
    let mut found: u64 = 0;
    let mut i: usize = 0;
    while i < logs.len()
        invariant
            i <= logs.len(),
            sep@ == newline(),
            found == entry_count(views(logs@).take(i as int)),
            found <= i,
        decreases logs.len() - i,
    {
        let ghost next = views(logs@).take(i + 1);
        assert(next.drop_last() == views(logs@).take(i as int));
        assert(next.last() == logs@[i as int]@);
        if !(logs[i] == sep) {
            found = found + 1;
        }
        i = i + 1;
    }
    assert(views(logs@).take(logs.len() as int) == views(logs@));
    let percent: u64;
    if found == 0 && total_lines == 0 {
        percent = 0;
    } else if found >= total_lines {
        assert((100 * total_lines) as int / found as int <= 100) by (nonlinear_arith)
            requires
                total_lines <= found,
                found > 0,
        ;
        percent = 100 * total_lines / found;
    } else {
        assert((100 * found) as int / total_lines as int <= 100) by (nonlinear_arith)
            requires
                found < total_lines,
        ;
        percent = 100 * found / total_lines;
    }
    percent as u16
}

/// `x % d` as Rust computes it on integers: the remainder of the division
/// rounded toward zero, with the sign of `x`.
pub open spec fn truncated_rem(x: int, d: int) -> int {
    if x >= 0 && d > 0 {
        x % d
    } else if x >= 0 {
        x % (-d)
    } else if d > 0 {
        -((-x) % d)
    } else {
        -((-x) % (-d))
    }
}

/// The start of the sampling period that holds the timestamp `ts`:
/// `ts - ts % period`.
pub open spec fn bucket_of(ts: i64, period: i64) -> int {
    ts - truncated_rem(ts as int, period as int)
}

/// How many of `stamps` fall in the period that starts at `start`.
pub open spec fn bucket_count(stamps: Seq<i64>, period: i64, start: int) -> nat
    decreases stamps.len(),
{
    if stamps.len() == 0 {
        0
    } else {
        bucket_count(stamps.drop_last(), period, start) + if bucket_of(stamps.last(), period) == start {
            1nat
        } else {
            0nat
        }
    }
}

pub proof fn lemma_bucket_count_positive(stamps: Seq<i64>, period: i64, start: int)
    requires
        bucket_count(stamps, period, start) > 0,
    ensures
        exists|j: int| 0 <= j < stamps.len() && bucket_of(stamps[j], period) == start,
    decreases stamps.len(),
{
    let p = stamps.drop_last();
    if bucket_of(stamps.last(), period) == start {
        assert(bucket_of(stamps[stamps.len() - 1], period) == start);
    } else {
        lemma_bucket_count_positive(p, period, start);
        let j = choose|j: int| 0 <= j < p.len() && bucket_of(p[j], period) == start;
        assert(stamps[j] == p[j]);
    }
}

proof fn lemma_bucket_count_bound(stamps: Seq<i64>, period: i64, start: int)
    ensures
        bucket_count(stamps, period, start) <= stamps.len(),
    decreases stamps.len(),
{
    if stamps.len() > 0 {
        lemma_bucket_count_bound(stamps.drop_last(), period, start);
    }
}

/// The start of the sampling period of `ts`, as Rust computes
/// `ts - ts % period`.
pub fn bucket_start(ts: i64, period: i64) -> (res: i64)
    requires
        period != 0,
    ensures
        res == bucket_of(ts, period),
{
    let rem: i64 = match ts.checked_rem(period) {
        Some(r) => r,
        None => 0,
    };
    proof {
        let x = ts as int;
        let d = period as int;
        if x >= 0 && d > 0 {
            vstd::arithmetic::div_mod::lemma_mod_decreases(x as nat, d as nat);
        } else if x >= 0 {
            vstd::arithmetic::div_mod::lemma_mod_decreases(x as nat, (-d) as nat);
        } else if d > 0 {
            vstd::arithmetic::div_mod::lemma_mod_decreases((-x) as nat, d as nat);
        } else {
            vstd::arithmetic::div_mod::lemma_mod_decreases((-x) as nat, (-d) as nat);
            if x == i64::MIN && d == -1 {
                assert((-x) % 1 == 0) by (nonlinear_arith);
            }
        }
    }
    ts - rem
}

/// `hist` lists, in increasing order of start, each sampling period that
/// holds one of `stamps`, with how many it holds.
pub open spec fn is_histogram(stamps: Seq<i64>, period: i64, hist: Seq<(i64, u64)>) -> bool {
    &&& forall|a: int, b: int| 0 <= a < b < hist.len() ==> hist[a].0 < hist[b].0
    &&& forall|k: int|
        0 <= k < hist.len() ==> (#[trigger] hist[k]).1 == bucket_count(stamps, period, hist[k].0 as int)
            && hist[k].1 > 0
    &&& forall|j: int|
        0 <= j < stamps.len() ==> exists|k: int|
            0 <= k < hist.len() && hist[k].0 == bucket_of(#[trigger] stamps[j], period)
}

/// The number of timestamps in each sampling period that holds one, in
/// increasing order of the period's start (`ts - ts % period` in Rust).
pub fn bucket_histogram(timestamps: &Vec<i64>, period: i64) -> (res: Vec<(i64, u64)>)
    requires
        period != 0,
    ensures
        is_histogram(timestamps@, period, res@),
{
    let mut starts: Vec<i64> = Vec::new();
    let mut counts: Vec<u64> = Vec::new();
    let mut i: usize = 0;
    while i < timestamps.len()
        invariant
            i <= timestamps.len(),
            period != 0,
            starts@.len() == counts@.len(),
            forall|a: int, b: int| 0 <= a < b < starts@.len() ==> starts@[a] < starts@[b],
            forall|k: int|
                0 <= k < counts@.len() ==> #[trigger] counts@[k] == bucket_count(
                    timestamps@.take(i as int),
                    period,
                    starts@[k] as int,
                ) && counts@[k] > 0,
            forall|j: int|
                0 <= j < i ==> exists|k: int|
                    0 <= k < starts@.len() && starts@[k] == bucket_of(#[trigger] timestamps@[j], period),
        decreases timestamps.len() - i,
    {
        let ghost prefix = timestamps@.take(i as int);
        let ghost next = timestamps@.take(i + 1);
        assert(next.drop_last() == prefix);
        assert(next.last() == timestamps@[i as int]);
        let b = bucket_start(timestamps[i], period);
        let mut k: usize = 0;
        while k < starts.len() && starts[k] < b
            invariant
                k <= starts@.len(),
                forall|a: int| 0 <= a < k ==> starts@[a] < b,
            decreases starts@.len() - k,
        {
            k = k + 1;
        }
        proof {
            assert forall|k2: int| 0 <= k2 < counts@.len() implies #[trigger] counts@[k2] <= i by {
                lemma_bucket_count_bound(prefix, period, starts@[k2] as int);
            }
        }
        if k < starts.len() && starts[k] == b {
            let c = counts[k];
            counts.set(k, c + 1);
            proof {
                assert forall|k2: int| 0 <= k2 < counts@.len() implies #[trigger] counts@[k2]
                    == bucket_count(next, period, starts@[k2] as int) && counts@[k2] > 0 by {
                    if k2 != k {
                        assert(starts@[k2] != starts@[k as int]);
                    }
                }
                assert forall|j: int| 0 <= j < i + 1 implies exists|k2: int|
                    0 <= k2 < starts@.len() && starts@[k2] == bucket_of(
                        #[trigger] timestamps@[j],
                        period,
                    ) by {
                    if j == i {
                        assert(starts@[k as int] == bucket_of(timestamps@[j], period));
                    }
                }
            }
        } else {
            proof {
                if bucket_count(prefix, period, b as int) > 0 {
                    lemma_bucket_count_positive(prefix, period, b as int);
                    let j = choose|j: int| 0 <= j < prefix.len() && bucket_of(prefix[j], period) == b;
                    assert(prefix[j] == timestamps@[j]);
                    let k2 = choose|k2: int| 0 <= k2 < starts@.len() && starts@[k2] == bucket_of(timestamps@[j], period);
                    if k2 < k {
                    } else {
                        assert(starts@[k as int] <= starts@[k2]);
                    }
                    assert(false);
                }
            }
            let ghost old_starts = starts@;
            let ghost old_counts = counts@;
            starts.insert(k, b);
            counts.insert(k, 1);
            proof {
                assert forall|a: int, c: int| 0 <= a < c < starts@.len() implies starts@[a] < starts@[c] by {
                    if a < k && c > k {
                        assert(starts@[c] == old_starts[c - 1]);
                        if k < old_starts.len() {
                            assert(old_starts[k as int] > b);
                            assert(old_starts[k as int] <= old_starts[c - 1]);
                        }
                    } else if a == k && c > k {
                        assert(old_starts[k as int] > b);
                        assert(old_starts[k as int] <= old_starts[c - 1]);
                    }
                }
                assert forall|k2: int| 0 <= k2 < counts@.len() implies #[trigger] counts@[k2]
                    == bucket_count(next, period, starts@[k2] as int) && counts@[k2] > 0 by {
                    if k2 < k {
                        assert(starts@[k2] == old_starts[k2]);
                        assert(counts@[k2] == old_counts[k2]);
                        assert(old_starts[k2] != b);
                    } else if k2 > k {
                        assert(starts@[k2] == old_starts[k2 - 1]);
                        assert(counts@[k2] == old_counts[k2 - 1]);
                        assert(old_starts[k2 - 1] != b);
                    }
                }
                assert forall|j: int| 0 <= j < i + 1 implies exists|k2: int|
                    0 <= k2 < starts@.len() && starts@[k2] == bucket_of(
                        #[trigger] timestamps@[j],
                        period,
                    ) by {
                    if j == i {
                        assert(starts@[k as int] == bucket_of(timestamps@[j], period));
                    } else {
                        let k3 = choose|k3: int| 0 <= k3 < old_starts.len() && old_starts[k3] == bucket_of(timestamps@[j], period);
                        if k3 < k {
                            assert(starts@[k3] == old_starts[k3]);
                        } else {
                            assert(starts@[k3 + 1] == old_starts[k3]);
                        }
                    }
                }
            }
        }
        i = i + 1;
    }
    assert(timestamps@.take(timestamps.len() as int) == timestamps@);
    let mut res: Vec<(i64, u64)> = Vec::new();
    let mut k: usize = 0;
    while k < starts.len()
        invariant
            k <= starts@.len(),
            starts@.len() == counts@.len(),
            res@.len() == k,
            forall|j: int| 0 <= j < k ==> (#[trigger] res@[j]).0 == starts@[j] && res@[j].1 == counts@[j],
        decreases starts@.len() - k,
    {
        res.push((starts[k], counts[k]));
        k = k + 1;
    }
    proof {
        assert forall|j: int| 0 <= j < timestamps@.len() implies exists|k2: int|
            0 <= k2 < res@.len() && res@[k2].0 == bucket_of(#[trigger] timestamps@[j], period) by {
            let k2 = choose|k2: int| 0 <= k2 < starts@.len() && starts@[k2] == bucket_of(timestamps@[j], period);
            assert(res@[k2].0 == starts@[k2]);
        }
    }
    res
}

/// The timestamps among `stamps`, in order.
pub open spec fn present_stamps(stamps: Seq<Option<i64>>) -> Seq<i64>
    decreases stamps.len(),
{
    if stamps.len() == 0 {
        seq![]
    } else {
        let p = present_stamps(stamps.drop_last());
        match stamps.last() {
            Some(t) => p.push(t),
            None => p,
        }
    }
}

/// `counts` is the trend of `lines` when syslog dates are taken to be in
/// `year` and the lines' timestamps are `stamps`: each stamp is one that
/// its line may give, and `counts` are the counts of the histogram `hist`
/// of the timestamps found.
pub open spec fn trend_explained(
    lines: Seq<Seq<char>>,
    year: i32,
    stamps: Seq<Option<i64>>,
    sampling: i64,
    hist: Seq<(i64, u64)>,
    counts: Seq<u64>,
) -> bool {
    &&& stamps.len() == lines.len()
    &&& forall|i: int| 0 <= i < lines.len() ==> stamp_allowed(#[trigger] lines[i], year, stamps[i])
    &&& is_histogram(present_stamps(stamps), sampling, hist)
    &&& counts == hist.map_values(|p: (i64, u64)| p.1)
}

/// The date patterns could not be compiled.
#[derive(Debug, Clone, Copy, PartialEq, Eq, Structural)]
pub enum ChartError {
    InvalidDatePattern,
}

/// The trend of a filtered log list: the number of dated entries in each
/// sampling period of `sampling` seconds, in time order. An entry's date is
/// the first of the known kinds found in it; entries without one are left
/// out.
pub fn schart_format(logs: Vec<String>, sampling: i64) -> (res: Result<Vec<u64>, ChartError>)
    requires
        sampling != 0,
    ensures
        res is Err <==> !date_patterns_compile(),
        res matches Ok(v) ==> exists|year: i32, stamps: Seq<Option<i64>>, hist: Seq<(i64, u64)>|
            #[trigger] trend_explained(views(logs@), year, stamps, sampling, hist, v@),
{
    let patterns = match DatePatterns::new() {
        Some(p) => p,
        None => return Err(ChartError::InvalidDatePattern),
    };
    let year = local_current_year();
    let ghost mut stamps: Seq<Option<i64>> = seq![];
    let mut dates: Vec<i64> = Vec::new();
    let mut i: usize = 0;
    while i < logs.len()
        invariant
            i <= logs.len(),
            patterns.wf(),
            stamps.len() == i,
            forall|j: int| 0 <= j < i ==> stamp_allowed(#[trigger] logs@[j]@, year, stamps[j]),
            dates@ == present_stamps(stamps),
        decreases logs.len() - i,
    {
        let stamp = patterns.line_timestamp(logs[i].as_str(), year);
        proof {
            assert(stamps.push(stamp).drop_last() == stamps);
            stamps = stamps.push(stamp);
        }
        if let Some(t) = stamp {
            dates.push(t);
        }
        i = i + 1;
    }
    let hist = bucket_histogram(&dates, sampling);
    let mut counts: Vec<u64> = Vec::new();
    let mut k: usize = 0;
    while k < hist.len()
        invariant
            k <= hist@.len(),
            counts@ == hist@.take(k as int).map_values(|p: (i64, u64)| p.1),
        decreases hist@.len() - k,
    {
        counts.push(hist[k].1);
        k = k + 1;
        assert(hist@.take(k as int).drop_last() == hist@.take(k - 1));
    }
    assert(hist@.take(hist@.len() as int) == hist@);
    proof {
        assert forall|j: int| 0 <= j < views(logs@).len() implies stamp_allowed(
            #[trigger] views(logs@)[j],
            year,
            stamps[j],
        ) by {
            assert(views(logs@)[j] == logs@[j]@);
        }
        assert(trend_explained(views(logs@), year, stamps, sampling, hist@, counts@));
    }
    let res: Result<Vec<u64>, ChartError> = Ok(counts);
    proof {
        let v = res->Ok_0;
        assert(v@ == counts@);
        assert(exists|y: i32, st: Seq<Option<i64>>, h: Seq<(i64, u64)>|
            #[trigger] trend_explained(views(logs@), y, st, sampling, h, v@));
    }
    res
}

} // verus!
