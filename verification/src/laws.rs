use vstd::prelude::*;
use crate::text::{newline, with_separators, distinct_entries, lemma_distinct_entries, count_of, lemma_count_of_contains};
use crate::parser::{FilterSpec, filter_output, filtered_entries, refine_matches, unset_marker};
use crate::pattern::{pattern_matches, pattern_find_all};
use crate::graph::{ChartView, view_after_key};
use crate::text::{has_char_where, is_forbidden_filename_char};
use crate::web_server::ipv4_octets;
use crate::file_mgmt::{output_entries, concat};
use crate::sanitizer::{Options, options_verdict, entry_count, bucket_count, bucket_of, is_histogram, lemma_bucket_count_positive, present_stamps};

verus! {

/// A separated list holds each entry at an even position, followed by a
/// separator.
pub proof fn lemma_with_separators_shape(e: Seq<Seq<char>>)
    ensures
        with_separators(e).len() == 2 * e.len(),
        forall|k: int| 0 <= k < e.len() ==> #[trigger] with_separators(e)[2 * k] == e[k],
        forall|k: int| 0 <= k < e.len() ==> #[trigger] with_separators(e)[2 * k + 1] == newline(),
    decreases e.len(),
{
    if e.len() > 0 {
        let p = e.drop_last();
        lemma_with_separators_shape(p);
        assert forall|k: int| 0 <= k < e.len() implies #[trigger] with_separators(e)[2 * k] == e[k] by {
            if k < p.len() {
                assert(with_separators(e)[2 * k] == with_separators(p)[2 * k]);
            }
        }
        assert forall|k: int| 0 <= k < e.len() implies #[trigger] with_separators(e)[2 * k + 1] == newline() by {
            if k < p.len() {
                assert(with_separators(e)[2 * k + 1] == with_separators(p)[2 * k + 1]);
            }
        }
    }
}

/// Appending entries that are separators or already kept changes nothing.
pub proof fn lemma_distinct_entries_absorb(a: Seq<Seq<char>>, t: Seq<Seq<char>>)
    requires
        forall|i: int| 0 <= i < t.len() ==> #[trigger] t[i] == newline() || distinct_entries(a).contains(t[i]),
    ensures
        distinct_entries(a + t) == distinct_entries(a),
    decreases t.len(),
{
    if t.len() == 0 {
        assert(a + t == a);
    } else {
        let tp = t.drop_last();
        assert forall|i: int| 0 <= i < tp.len() implies #[trigger] tp[i] == newline()
            || distinct_entries(a).contains(tp[i]) by {
            assert(tp[i] == t[i]);
        }
        lemma_distinct_entries_absorb(a, tp);
        assert((a + t).drop_last() == a + tp);
        assert((a + t).last() == t[t.len() - 1]);
    }
}

/// Separators do not change the distinct entries.
pub proof fn lemma_distinct_entries_separators(e: Seq<Seq<char>>)
    ensures
        distinct_entries(with_separators(e)) == distinct_entries(e),
    decreases e.len(),
{
    if e.len() > 0 {
        let p = e.drop_last();
        lemma_distinct_entries_separators(p);
        let a = with_separators(p) + seq![e.last()];
        let b = a + seq![newline()];
        assert(with_separators(e) == b);
        assert(b.drop_last() == a);
        assert(b.last() == newline());
        assert(distinct_entries(b) == distinct_entries(a));
        assert(a.drop_last() == with_separators(p));
        assert(a.last() == e.last());
        assert(e.drop_last() == p);
        assert(distinct_entries(a) == distinct_entries(e));
    }
}

/// A list without separators or repeats is its own distinct entries.
pub proof fn lemma_distinct_entries_identity(d: Seq<Seq<char>>)
    requires
        d.no_duplicates(),
        !d.contains(newline()),
    ensures
        distinct_entries(d) == d,
    decreases d.len(),
{
    if d.len() > 0 {
        let p = d.drop_last();
        assert(p.no_duplicates());
        assert(!p.contains(newline())) by {
            if p.contains(newline()) {
                let j = choose|j: int| 0 <= j < p.len() && p[j] == newline();
                assert(d[j] == newline());
            }
        }
        lemma_distinct_entries_identity(p);
        assert(!p.contains(d.last())) by {
            if p.contains(d.last()) {
                let j = choose|j: int| 0 <= j < p.len() && p[j] == d.last();
                assert(d[j] == d[d.len() - 1]);
            }
        }
        assert(d.last() != newline()) by {
            assert(d[d.len() - 1] == d.last());
        }
        assert(p.push(d.last()) == d);
    }
}

/// Removing repeated entries twice removes nothing more: deduplicating a
/// deduplicated list gives it back.
pub proof fn law_dedup_idempotent(s: Seq<Seq<char>>)
    ensures
        with_separators(distinct_entries(with_separators(distinct_entries(s)))) == with_separators(
            distinct_entries(s),
        ),
{
    let d = distinct_entries(s);
    lemma_distinct_entries(s);
    lemma_distinct_entries_separators(d);
    lemma_distinct_entries_identity(d);
}

/// Deduplication loses no entry: an entry other than the separator occurs
/// in the deduplicated list exactly when it occurs in the original one, and
/// then only once.
pub proof fn law_dedup_keeps_entries(s: Seq<Seq<char>>, x: Seq<char>)
    requires
        x != newline(),
    ensures
        distinct_entries(s).contains(x) <==> s.contains(x),
        distinct_entries(s).contains(x) ==> count_of(distinct_entries(s), x) == 1,
{
    lemma_distinct_entries(s);
    if distinct_entries(s).contains(x) {
        lemma_count_of_once(distinct_entries(s), x);
    }
}

proof fn lemma_count_of_once(d: Seq<Seq<char>>, x: Seq<char>)
    requires
        d.no_duplicates(),
        d.contains(x),
    ensures
        count_of(d, x) == 1,
    decreases d.len(),
{
    let p = d.drop_last();
    assert(p.no_duplicates());
    if d.last() == x {
        lemma_count_of_contains(p, x);
        if p.contains(x) {
            let j = choose|j: int| 0 <= j < p.len() && p[j] == x;
            assert(d[j] == d[d.len() - 1]);
        }
    } else {
        let j = choose|j: int| 0 <= j < d.len() && d[j] == x;
        assert(j < d.len() - 1);
        assert(p[j] == x);
        lemma_count_of_once(p, x);
    }
}

/// The entry at entry position `k` of a separated list (position `2k`).
pub open spec fn entry_at(v: Seq<Seq<char>>, k: int) -> Seq<char> {
    v[2 * k]
}

/// Every list that the filter returns alternates entries and separators:
/// it has an even length, and each odd position holds `"\n"`.
pub proof fn law_filter_output_alternates(f: FilterSpec, lines: Seq<Seq<char>>, duplicate: bool)
    ensures
        filter_output(f, lines, duplicate).len() % 2 == 0,
        forall|k: int|
            0 <= k < filter_output(f, lines, duplicate).len() / 2 ==> #[trigger] filter_output(
                f,
                lines,
                duplicate,
            )[2 * k + 1] == newline(),
{
    let all = with_separators(filtered_entries(f, lines));
    lemma_with_separators_shape(filtered_entries(f, lines));
    lemma_with_separators_shape(distinct_entries(all));
}

/// Without duplicates, no entry of the filter's list repeats and none is a
/// separator.
pub proof fn law_filter_output_distinct(f: FilterSpec, lines: Seq<Seq<char>>)
    ensures
        forall|a: int, b: int|
            0 <= a < b < filter_output(f, lines, false).len() / 2 ==> #[trigger] entry_at(
                filter_output(f, lines, false),
                a,
            ) != #[trigger] entry_at(filter_output(f, lines, false), b),
        forall|a: int|
            0 <= a < filter_output(f, lines, false).len() / 2 ==> #[trigger] entry_at(
                filter_output(f, lines, false),
                a,
            ) != newline(),
{
    let d = distinct_entries(with_separators(filtered_entries(f, lines)));
    lemma_distinct_entries(with_separators(filtered_entries(f, lines)));
    lemma_with_separators_shape(d);
    assert forall|a: int| 0 <= a < d.len() implies d[a] != newline() by {
        if d[a] == newline() {
            assert(d.contains(newline()));
        }
    }
}

/// Turning duplicates off only drops repeated entries: the list without
/// duplicates is the deduplication of the list with them.
pub proof fn law_filter_without_duplicates_is_dedup(f: FilterSpec, lines: Seq<Seq<char>>)
    ensures
        filter_output(f, lines, false) == with_separators(distinct_entries(filter_output(f, lines, true))),
{
}

/// The concatenation of two lists is the concatenation of their
/// concatenations.
pub proof fn lemma_concat_append(a: Seq<Seq<char>>, b: Seq<Seq<char>>)
    ensures
        concat(a + b) == concat(a) + concat(b),
    decreases b.len(),
{
    if b.len() == 0 {
        assert(a + b == a);
    } else {
        lemma_concat_append(a, b.drop_last());
        assert((a + b).drop_last() == a + b.drop_last());
        assert((a + b).last() == b.last());
    }
}

/// Saving over an erased file writes exactly the new entries.
pub proof fn law_save_erased_writes_new(existing: Seq<Seq<char>>, text: Seq<Seq<char>>, duplicate: bool)
    ensures
        concat(output_entries(existing, text, true, duplicate)) == concat(text),
{
}

/// Saving without erasing, duplicates allowed, keeps the file's lines, each
/// ended by a newline, ahead of the new entries.
pub proof fn law_save_appends(existing: Seq<Seq<char>>, text: Seq<Seq<char>>)
    ensures
        concat(output_entries(existing, text, false, true)) == concat(with_separators(existing)) + concat(text),
{
    lemma_concat_append(with_separators(existing), text);
}

/// Saving without erasing and without duplicates is stable: saving the same
/// new entries again over what was written (read back as its entries)
/// writes the same content.
pub proof fn law_save_again_unchanged(existing: Seq<Seq<char>>, text: Seq<Seq<char>>)
    ensures
        output_entries(
            distinct_entries(output_entries(existing, text, false, false)),
            text,
            false,
            false,
        ) == output_entries(existing, text, false, false),
{
    let src = with_separators(existing) + text;
    let d = distinct_entries(src);
    lemma_distinct_entries(src);
    lemma_distinct_entries_separators(d);
    lemma_distinct_entries_identity(d);
    assert(distinct_entries(output_entries(existing, text, false, false)) == d);
    let a = with_separators(d);
    assert forall|i: int| 0 <= i < text.len() implies #[trigger] text[i] == newline()
        || distinct_entries(a).contains(text[i]) by {
        assert(src[with_separators(existing).len() + i] == text[i]);
        assert(src.contains(text[i]));
    }
    lemma_distinct_entries_absorb(a, text);
}

/// With duplicates unwanted, the output file never holds an entry twice:
/// whether it is erased or kept, the entries that saving the filter's list
/// writes are pairwise different and none is a separator.
pub proof fn law_saved_without_duplicates(
    f: FilterSpec,
    lines: Seq<Seq<char>>,
    existing: Seq<Seq<char>>,
    erase_file: bool,
)
    ensures
        ({
            let out = output_entries(existing, filter_output(f, lines, false), erase_file, false);
            &&& out.len() % 2 == 0
            &&& forall|a: int, b: int|
                0 <= a < b < out.len() / 2 ==> #[trigger] entry_at(out, a) != #[trigger] entry_at(out, b)
            &&& forall|a: int| 0 <= a < out.len() / 2 ==> #[trigger] entry_at(out, a) != newline()
        }),
{
    let text = filter_output(f, lines, false);
    let out = output_entries(existing, text, erase_file, false);
    if erase_file {
        law_filter_output_alternates(f, lines, false);
        law_filter_output_distinct(f, lines);
    } else {
        let d = distinct_entries(with_separators(existing) + text);
        lemma_distinct_entries(with_separators(existing) + text);
        lemma_with_separators_shape(d);
        assert forall|a: int| 0 <= a < d.len() implies d[a] != newline() by {
            if d[a] == newline() {
                assert(d.contains(newline()));
            }
        }
    }
}

/// The total of the counts of `keys` in `s`.
pub open spec fn total_count(s: Seq<Seq<char>>, keys: Seq<Seq<char>>) -> nat
    decreases keys.len(),
{
    if keys.len() == 0 {
        0
    } else {
        total_count(s, keys.drop_last()) + count_of(s, keys.last())
    }
}

proof fn lemma_total_count_push(s: Seq<Seq<char>>, e: Seq<char>, keys: Seq<Seq<char>>)
    requires
        keys.no_duplicates(),
    ensures
        total_count(s.push(e), keys) == total_count(s, keys) + if keys.contains(e) { 1nat } else { 0nat },
    decreases keys.len(),
{
    if keys.len() > 0 {
        let p = keys.drop_last();
        assert(p.no_duplicates());
        lemma_total_count_push(s, e, p);
        assert(s.push(e).drop_last() == s);
        if keys.last() == e {
            assert(keys[keys.len() - 1] == e);
            assert(!p.contains(e)) by {
                if p.contains(e) {
                    let j = choose|j: int| 0 <= j < p.len() && p[j] == e;
                    assert(keys[j] == keys[keys.len() - 1]);
                }
            }
        } else {
            assert(keys.contains(e) <==> p.contains(e)) by {
                if keys.contains(e) {
                    let j = choose|j: int| 0 <= j < keys.len() && keys[j] == e;
                    assert(j < keys.len() - 1);
                    assert(p[j] == e);
                }
                if p.contains(e) {
                    let j = choose|j: int| 0 <= j < p.len() && p[j] == e;
                    assert(keys[j] == e);
                }
            }
        }
    }
}

/// The bar counts add up: over the distinct entries of a filtered list, the
/// numbers of occurrences sum to the number of entries that are not
/// separators.
pub proof fn law_bar_counts_total(logs: Seq<Seq<char>>)
    ensures
        total_count(logs, distinct_entries(logs)) == entry_count(logs),
    decreases logs.len(),
{
    if logs.len() > 0 {
        let p = logs.drop_last();
        let e = logs.last();
        let d = distinct_entries(p);
        law_bar_counts_total(p);
        lemma_distinct_entries(p);
        assert(p.push(e) == logs);
        lemma_total_count_push(p, e, d);
        if !(e == newline() || d.contains(e)) {
            lemma_count_of_contains(p, e);
            assert(total_count(logs, d.push(e)) == total_count(logs, d) + count_of(logs, e)) by {
                assert(d.push(e).drop_last() == d);
            }
        }
    }
}

/// The total of the counts of the periods `starts` for `stamps`.
pub open spec fn period_total(stamps: Seq<i64>, period: i64, starts: Seq<int>) -> nat
    decreases starts.len(),
{
    if starts.len() == 0 {
        0
    } else {
        period_total(stamps, period, starts.drop_last()) + bucket_count(stamps, period, starts.last())
    }
}

proof fn lemma_period_total_push(stamps: Seq<i64>, t: i64, period: i64, starts: Seq<int>)
    requires
        starts.no_duplicates(),
    ensures
        period_total(stamps.push(t), period, starts) == period_total(stamps, period, starts) + if starts.contains(
            bucket_of(t, period),
        ) {
            1nat
        } else {
            0nat
        },
    decreases starts.len(),
{
    if starts.len() > 0 {
        let p = starts.drop_last();
        let b = bucket_of(t, period);
        assert(p.no_duplicates());
        lemma_period_total_push(stamps, t, period, p);
        assert(stamps.push(t).drop_last() == stamps);
        assert(stamps.push(t).last() == t);
        if starts.last() == b {
            assert(starts[starts.len() - 1] == b);
            assert(!p.contains(b)) by {
                if p.contains(b) {
                    let j = choose|j: int| 0 <= j < p.len() && p[j] == b;
                    assert(starts[j] == starts[starts.len() - 1]);
                }
            }
        } else {
            assert(starts.contains(b) <==> p.contains(b)) by {
                if starts.contains(b) {
                    let j = choose|j: int| 0 <= j < starts.len() && starts[j] == b;
                    assert(j < starts.len() - 1);
                    assert(p[j] == b);
                }
                if p.contains(b) {
                    let j = choose|j: int| 0 <= j < p.len() && p[j] == b;
                    assert(starts[j] == b);
                }
            }
        }
    }
}

proof fn lemma_period_total_all(stamps: Seq<i64>, period: i64, starts: Seq<int>)
    requires
        starts.no_duplicates(),
        forall|j: int| 0 <= j < stamps.len() ==> starts.contains(bucket_of(#[trigger] stamps[j], period)),
    ensures
        period_total(stamps, period, starts) == stamps.len(),
    decreases stamps.len(),
{
    if stamps.len() == 0 {
        lemma_period_total_empty(period, starts);
        assert(stamps == Seq::<i64>::empty());
    } else {
        let p = stamps.drop_last();
        assert forall|j: int| 0 <= j < p.len() implies starts.contains(bucket_of(#[trigger] p[j], period)) by {
            assert(p[j] == stamps[j]);
        }
        lemma_period_total_all(p, period, starts);
        assert(p.push(stamps.last()) == stamps);
        assert(stamps[stamps.len() - 1] == stamps.last());
        assert(starts.contains(bucket_of(stamps[stamps.len() - 1], period)));
        lemma_period_total_push(p, stamps.last(), period, starts);
    }
}

proof fn lemma_period_total_empty(period: i64, starts: Seq<int>)
    ensures
        period_total(Seq::<i64>::empty(), period, starts) == 0,
    decreases starts.len(),
{
    if starts.len() > 0 {
        lemma_period_total_empty(period, starts.drop_last());
    }
}

/// The sum of the counts of a histogram.
pub open spec fn histogram_total(hist: Seq<(i64, u64)>) -> nat
    decreases hist.len(),
{
    if hist.len() == 0 {
        0
    } else {
        histogram_total(hist.drop_last()) + hist.last().1 as nat
    }
}

/// The trend counts add up: every histogram of timestamps counts each
/// timestamp once, so its counts sum to the number of timestamps.
pub proof fn law_histogram_total(stamps: Seq<i64>, period: i64, hist: Seq<(i64, u64)>)
    requires
        is_histogram(stamps, period, hist),
    ensures
        histogram_total(hist) == stamps.len(),
{
    let starts = hist.map_values(|p: (i64, u64)| p.0 as int);
    assert(starts.no_duplicates()) by {
        assert forall|a: int, b: int| 0 <= a < starts.len() && 0 <= b < starts.len() && a != b implies starts[a]
            != starts[b] by {
            if a < b {
                assert(hist[a].0 < hist[b].0);
            } else {
                assert(hist[b].0 < hist[a].0);
            }
        }
    }
    assert forall|j: int| 0 <= j < stamps.len() implies starts.contains(bucket_of(#[trigger] stamps[j], period)) by {
        let k = choose|k: int| 0 <= k < hist.len() && hist[k].0 == bucket_of(stamps[j], period);
        assert(starts[k] == bucket_of(stamps[j], period));
    }
    lemma_period_total_all(stamps, period, starts);
    lemma_histogram_total_matches(stamps, period, hist);
}

proof fn lemma_histogram_total_matches(stamps: Seq<i64>, period: i64, hist: Seq<(i64, u64)>)
    requires
        forall|k: int|
            0 <= k < hist.len() ==> (#[trigger] hist[k]).1 == bucket_count(stamps, period, hist[k].0 as int),
    ensures
        histogram_total(hist) == period_total(stamps, period, hist.map_values(|p: (i64, u64)| p.0 as int)),
    decreases hist.len(),
{
    if hist.len() > 0 {
        let h = hist.drop_last();
        assert forall|k: int| 0 <= k < h.len() implies (#[trigger] h[k]).1 == bucket_count(
            stamps,
            period,
            h[k].0 as int,
        ) by {
            assert(h[k] == hist[k]);
        }
        lemma_histogram_total_matches(stamps, period, h);
        assert(hist.map_values(|p: (i64, u64)| p.0 as int).drop_last() == h.map_values(
            |p: (i64, u64)| p.0 as int,
        ));
        assert(hist[hist.len() - 1] == hist.last());
    }
}

proof fn lemma_count_of_multiset(s: Seq<Seq<char>>, x: Seq<char>)
    ensures
        count_of(s, x) == s.to_multiset().count(x),
    decreases s.len(),
{
    broadcast use vstd::seq_lib::group_to_multiset_ensures, vstd::multiset::group_multiset_axioms;

    if s.len() == 0 {
        assert(!s.contains(x));
    } else {
        let p = s.drop_last();
        lemma_count_of_multiset(p, x);
        assert(p.push(s.last()) == s);
        vstd::seq_lib::to_multiset_build(p, s.last());
    }
}

/// The bar counts do not depend on the order of the entries: for two lists
/// that are permutations of each other (same multiset of entries), every
/// entry occurs as often in both, and both have the same distinct entries,
/// so the bar chart's (entry, count) pairs are the same.
pub proof fn law_bar_counts_permutation(logs: Seq<Seq<char>>, perm: Seq<Seq<char>>)
    requires
        logs.to_multiset() == perm.to_multiset(),
    ensures
        forall|x: Seq<char>| #[trigger] count_of(logs, x) == count_of(perm, x),
        forall|x: Seq<char>| #[trigger] distinct_entries(logs).contains(x) <==> distinct_entries(perm).contains(x),
{
    assert forall|x: Seq<char>| #[trigger] count_of(logs, x) == count_of(perm, x) by {
        lemma_count_of_multiset(logs, x);
        lemma_count_of_multiset(perm, x);
    }
    lemma_distinct_entries(logs);
    lemma_distinct_entries(perm);
    assert forall|x: Seq<char>| #[trigger] distinct_entries(logs).contains(x) <==> distinct_entries(perm).contains(x) by {
        lemma_count_of_contains(logs, x);
        lemma_count_of_contains(perm, x);
        lemma_count_of_multiset(logs, x);
        lemma_count_of_multiset(perm, x);
    }
}

proof fn lemma_bucket_count_remove(s: Seq<i64>, period: i64, b: int, j: int)
    requires
        0 <= j < s.len(),
    ensures
        bucket_count(s, period, b) == bucket_count(s.remove(j), period, b) + if bucket_of(s[j], period) == b {
            1nat
        } else {
            0nat
        },
    decreases s.len(),
{
    if j == s.len() - 1 {
        assert(s.remove(j) == s.drop_last());
    } else {
        let p = s.drop_last();
        lemma_bucket_count_remove(p, period, b, j);
        assert(s.remove(j).drop_last() == p.remove(j));
        assert(s.remove(j).last() == s.last());
        assert(p[j] == s[j]);
    }
}

proof fn lemma_bucket_count_permutation(s: Seq<i64>, t: Seq<i64>, period: i64, b: int)
    requires
        s.to_multiset() == t.to_multiset(),
    ensures
        bucket_count(s, period, b) == bucket_count(t, period, b),
    decreases s.len(),
{
    broadcast use vstd::seq_lib::group_to_multiset_ensures, vstd::multiset::group_multiset_axioms;

    if s.len() == 0 {
        assert(t.to_multiset().len() == 0);
        assert(t.len() == 0);
    } else {
        let p = s.drop_last();
        let x = s.last();
        assert(p.push(x) == s);
        vstd::seq_lib::to_multiset_build(p, x);
        assert(s.to_multiset().count(x) > 0);
        assert(t.contains(x));
        let j = choose|j: int| 0 <= j < t.len() && t[j] == x;
        vstd::seq_lib::to_multiset_remove(t, j);
        assert(t.remove(j).to_multiset() =~= p.to_multiset());
        lemma_bucket_count_permutation(p, t.remove(j), period, b);
        lemma_bucket_count_remove(t, period, b, j);
        assert(s.drop_last() == p);
    }
}

proof fn lemma_sorted_unique(a: Seq<int>, b: Seq<int>)
    requires
        forall|i: int, j: int| 0 <= i < j < a.len() ==> a[i] < a[j],
        forall|i: int, j: int| 0 <= i < j < b.len() ==> b[i] < b[j],
        forall|x: int| a.contains(x) <==> b.contains(x),
    ensures
        a == b,
    decreases a.len(),
{
    if a.len() == 0 {
        if b.len() > 0 {
            assert(b.contains(b[0]));
        }
        assert(b.len() == 0);
    } else {
        assert(a.contains(a.last()));
        assert(b.len() > 0);
        assert(b.contains(b.last()));
        let ia = choose|i: int| 0 <= i < a.len() && a[i] == b.last();
        let ib = choose|i: int| 0 <= i < b.len() && b[i] == a.last();
        if ia < a.len() - 1 {
            assert(a[ia] < a[a.len() - 1]);
        }
        if ib < b.len() - 1 {
            assert(b[ib] < b[b.len() - 1]);
        }
        assert(a.last() == b.last());
        let ap = a.drop_last();
        let bp = b.drop_last();
        assert forall|x: int| ap.contains(x) <==> bp.contains(x) by {
            if ap.contains(x) {
                let i = choose|i: int| 0 <= i < ap.len() && ap[i] == x;
                assert(a[i] == x && a[i] < a.last());
                assert(b.contains(x));
                let k = choose|k: int| 0 <= k < b.len() && b[k] == x;
                assert(k != b.len() - 1);
                assert(bp[k] == x);
            }
            if bp.contains(x) {
                let i = choose|i: int| 0 <= i < bp.len() && bp[i] == x;
                assert(b[i] == x && b[i] < b.last());
                assert(a.contains(x));
                let k = choose|k: int| 0 <= k < a.len() && a[k] == x;
                assert(k != a.len() - 1);
                assert(ap[k] == x);
            }
        }
        lemma_sorted_unique(ap, bp);
        assert(a == ap.push(a.last()));
        assert(b == bp.push(b.last()));
    }
}

/// The starts of the periods of a histogram.
pub open spec fn histogram_starts(hist: Seq<(i64, u64)>) -> Seq<int> {
    hist.map_values(|p: (i64, u64)| p.0 as int)
}

proof fn lemma_histogram_starts(stamps: Seq<i64>, period: i64, hist: Seq<(i64, u64)>, x: int)
    requires
        is_histogram(stamps, period, hist),
    ensures
        histogram_starts(hist).contains(x) <==> bucket_count(stamps, period, x) > 0,
{
    if histogram_starts(hist).contains(x) {
        let k = choose|k: int| 0 <= k < hist.len() && histogram_starts(hist)[k] == x;
        assert(hist[k].1 == bucket_count(stamps, period, hist[k].0 as int));
    }
    if bucket_count(stamps, period, x) > 0 {
        lemma_bucket_count_positive(stamps, period, x);
        let j = choose|j: int| 0 <= j < stamps.len() && bucket_of(stamps[j], period) == x;
        let k = choose|k: int| 0 <= k < hist.len() && hist[k].0 == bucket_of(stamps[j], period);
        assert(histogram_starts(hist)[k] == x);
    }
}

/// The trend does not depend on the order of the timestamps: for two lists
/// of timestamps that are permutations of each other, the histograms are
/// the same (so each list has exactly one).
pub proof fn law_histogram_permutation(
    stamps: Seq<i64>,
    perm: Seq<i64>,
    period: i64,
    hist: Seq<(i64, u64)>,
    perm_hist: Seq<(i64, u64)>,
)
    requires
        stamps.to_multiset() == perm.to_multiset(),
        is_histogram(stamps, period, hist),
        is_histogram(perm, period, perm_hist),
    ensures
        hist == perm_hist,
{
    let a = histogram_starts(hist);
    let b = histogram_starts(perm_hist);
    assert forall|x: int| a.contains(x) <==> b.contains(x) by {
        lemma_histogram_starts(stamps, period, hist, x);
        lemma_histogram_starts(perm, period, perm_hist, x);
        lemma_bucket_count_permutation(stamps, perm, period, x);
    }
    assert forall|i: int, j: int| 0 <= i < j < a.len() implies a[i] < a[j] by {
        assert(hist[i].0 < hist[j].0);
    }
    assert forall|i: int, j: int| 0 <= i < j < b.len() implies b[i] < b[j] by {
        assert(perm_hist[i].0 < perm_hist[j].0);
    }
    lemma_sorted_unique(a, b);
    assert(hist.len() == perm_hist.len()) by {
        assert(a.len() == b.len());
    }
    assert forall|k: int| 0 <= k < hist.len() implies hist[k] == perm_hist[k] by {
        assert(a[k] == b[k]);
        assert(hist[k].0 == perm_hist[k].0);
        lemma_bucket_count_permutation(stamps, perm, period, hist[k].0 as int);
        assert(hist[k].1 == bucket_count(stamps, period, hist[k].0 as int));
        assert(perm_hist[k].1 == bucket_count(perm, period, perm_hist[k].0 as int));
    }
    assert(hist =~= perm_hist);
}

proof fn lemma_present_stamps_count(s: Seq<Option<i64>>, t: i64)
    ensures
        present_stamps(s).to_multiset().count(t) == s.to_multiset().count(Some(t)),
    decreases s.len(),
{
    broadcast use vstd::seq_lib::group_to_multiset_ensures, vstd::multiset::group_multiset_axioms;

    if s.len() == 0 {
        assert(!s.contains(Some(t)));
        assert(!present_stamps(s).contains(t));
    } else {
        let p = s.drop_last();
        lemma_present_stamps_count(p, t);
        assert(p.push(s.last()) == s);
        vstd::seq_lib::to_multiset_build(p, s.last());
        match s.last() {
            Some(x) => {
                vstd::seq_lib::to_multiset_build(present_stamps(p), x);
            },
            None => {},
        }
    }
}

/// The trend does not depend on the order of the log lines: when the lines
/// of two calls are permutations of each other and each line is given the
/// same timestamp in both (as it is for the same year and time zone, a
/// line's timestamp being then fixed by the line), the timestamp lists are
/// permutations of each other, so the histograms, and the counts the trend
/// shows, are the same.
pub proof fn law_trend_permutation(
    stamps: Seq<Option<i64>>,
    perm_stamps: Seq<Option<i64>>,
    period: i64,
    hist: Seq<(i64, u64)>,
    perm_hist: Seq<(i64, u64)>,
)
    requires
        stamps.to_multiset() == perm_stamps.to_multiset(),
        is_histogram(present_stamps(stamps), period, hist),
        is_histogram(present_stamps(perm_stamps), period, perm_hist),
    ensures
        hist == perm_hist,
        hist.map_values(|p: (i64, u64)| p.1) == perm_hist.map_values(|p: (i64, u64)| p.1),
{
    assert(present_stamps(stamps).to_multiset() =~= present_stamps(perm_stamps).to_multiset()) by {
        assert forall|t: i64| #[trigger] present_stamps(stamps).to_multiset().count(t)
            == present_stamps(perm_stamps).to_multiset().count(t) by {
            lemma_present_stamps_count(stamps, t);
            lemma_present_stamps_count(perm_stamps, t);
        }
    }
    law_histogram_permutation(present_stamps(stamps), present_stamps(perm_stamps), period, hist, perm_hist);
}

/// In strict mode, a line that the find or include pattern matches and the
/// exclude pattern does not adds the texts that the find pattern matches in
/// it, followed by those that the include pattern matches, in order.
pub proof fn law_filter_strict_keeps_both_patterns_matches(f: FilterSpec, lines: Seq<Seq<char>>, line: Seq<char>)
    requires
        f.strict,
        pattern_matches(f.find, line) || pattern_matches(f.also_find, line),
        !pattern_matches(f.exclude, line),
    ensures
        filtered_entries(f, lines.push(line)) == filtered_entries(f, lines) + pattern_find_all(f.find, line)
            + pattern_find_all(f.also_find, line),
{
    assert(lines.push(line).drop_last() == lines);
    assert(lines.push(line).last() == line);
    assert(filtered_entries(f, lines) + (pattern_find_all(f.find, line) + pattern_find_all(f.also_find, line))
        == filtered_entries(f, lines) + pattern_find_all(f.find, line) + pattern_find_all(f.also_find, line));
}

/// Outside strict mode and without a match-only pattern, a line that the
/// find or include pattern matches and the exclude pattern does not is kept
/// whole, after the entries of the lines before it.
pub proof fn law_filter_keeps_whole_line(f: FilterSpec, lines: Seq<Seq<char>>, line: Seq<char>)
    requires
        !f.strict,
        f.match_only == unset_marker(),
        pattern_matches(f.find, line) || pattern_matches(f.also_find, line),
        !pattern_matches(f.exclude, line),
    ensures
        filtered_entries(f, lines.push(line)) == filtered_entries(f, lines).push(line),
{
    assert(lines.push(line).drop_last() == lines);
    assert(lines.push(line).last() == line);
    assert(filtered_entries(f, lines) + seq![line] == filtered_entries(f, lines).push(line));
}

/// What the match-only pattern finds in a list of matches is, in order,
/// what it finds in each of them.
pub proof fn law_refine_matches_each(match_only: Seq<char>, matches: Seq<Seq<char>>)
    ensures
        refine_matches(match_only, matches) == matches.map_values(
            |m: Seq<char>| pattern_find_all(match_only, m),
        ).flatten(),
    decreases matches.len(),
{
    if matches.len() > 0 {
        let p = matches.drop_last();
        law_refine_matches_each(match_only, p);
        let g = |m: Seq<char>| pattern_find_all(match_only, m);
        assert(matches.map_values(g) == p.map_values(g).push(g(matches.last())));
        p.map_values(g).lemma_flatten_push(g(matches.last()));
    }
}

/// Outside strict mode, with a match-only pattern, a line that the find or
/// include pattern matches and the exclude pattern does not adds what the
/// match-only pattern finds in each find-pattern match, then in each
/// include-pattern match.
pub proof fn law_filter_match_only(f: FilterSpec, lines: Seq<Seq<char>>, line: Seq<char>)
    requires
        !f.strict,
        f.match_only != unset_marker(),
        pattern_matches(f.find, line) || pattern_matches(f.also_find, line),
        !pattern_matches(f.exclude, line),
    ensures
        filtered_entries(f, lines.push(line)) == filtered_entries(f, lines) + pattern_find_all(f.find, line).map_values(
            |m: Seq<char>| pattern_find_all(f.match_only, m),
        ).flatten() + pattern_find_all(f.also_find, line).map_values(
            |m: Seq<char>| pattern_find_all(f.match_only, m),
        ).flatten(),
{
    assert(lines.push(line).drop_last() == lines);
    assert(lines.push(line).last() == line);
    law_refine_matches_each(f.match_only, pattern_find_all(f.find, line));
    law_refine_matches_each(f.match_only, pattern_find_all(f.also_find, line));
    let a = refine_matches(f.match_only, pattern_find_all(f.find, line));
    let b = refine_matches(f.match_only, pattern_find_all(f.also_find, line));
    assert(filtered_entries(f, lines) + (a + b) == filtered_entries(f, lines) + a + b);
}

/// A line that neither the find nor the include pattern matches, or that
/// the exclude pattern matches, adds nothing, in every mode.
pub proof fn law_filter_drops_line(f: FilterSpec, lines: Seq<Seq<char>>, line: Seq<char>)
    requires
        !(pattern_matches(f.find, line) || pattern_matches(f.also_find, line)) || pattern_matches(f.exclude, line),
    ensures
        filtered_entries(f, lines.push(line)) == filtered_entries(f, lines),
{
    assert(lines.push(line).drop_last() == lines);
    assert(lines.push(line).last() == line);
    assert(filtered_entries(f, lines) + Seq::<Seq<char>>::empty() == filtered_entries(f, lines));
}

/// The filter of no lines is empty.
pub proof fn law_filter_no_lines(f: FilterSpec)
    ensures
        filtered_entries(f, Seq::<Seq<char>>::empty()) == Seq::<Seq<char>>::empty(),
{
}

/// The chart keys do not depend on the chart on screen: `q` always quits,
/// `t`, `b` and `g` always show the trend, the bar chart and the gauge, and
/// every other key keeps the chart on screen.
pub proof fn law_chart_keys(key: char)
    ensures
        forall|c: ChartView| #[trigger] view_after_key(c, 'q') is None,
        forall|c: ChartView| #[trigger] view_after_key(c, 't') == Some(ChartView::Trend),
        forall|c: ChartView| #[trigger] view_after_key(c, 'b') == Some(ChartView::Bar),
        forall|c: ChartView| #[trigger] view_after_key(c, 'g') == Some(ChartView::Gauge),
        key != 'q' && key != 't' && key != 'b' && key != 'g' ==> forall|c: ChartView|
            #[trigger] view_after_key(c, key) == Some(c),
{
}

/// The options are accepted exactly when every check passes: the pattern to
/// find and the log file are given, neither the output nor the log file
/// name holds a forbidden character, strict mode and a match-only pattern
/// are not both asked for, and, with the web server on, its address is
/// given, parses as an IP address and is an IPv4 address of four octets,
/// its port is from 1 to 65534, and the output file name holds no `/` or
/// `\`.
pub proof fn law_options_accepted_iff_every_check_passes(o: Options, ip_parses: bool)
    ensures
        options_verdict(o, ip_parses) is Ok <==> {
            &&& o.elem_to_find@.len() > 0
            &&& o.logfile@.len() > 0
            &&& forall|i: int| 0 <= i < o.output@.len() ==> !is_forbidden_filename_char(#[trigger] o.output@[i])
            &&& forall|i: int| 0 <= i < o.logfile@.len() ==> !is_forbidden_filename_char(#[trigger] o.logfile@[i])
            &&& !(o.strict && o.match_only@ != unset_marker())
            &&& o.webserver ==> {
                &&& o.ip@.len() > 0
                &&& ip_parses
                &&& ipv4_octets(o.ip@) is Some
                &&& 1 <= o.port <= 65534
                &&& !o.output@.contains('/')
                &&& !o.output@.contains('\\')
            }
        },
{
}

} // verus!
