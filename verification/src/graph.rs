use vstd::prelude::*;

verus! {

/// The chart on screen.
#[derive(Debug, Clone, Copy, PartialEq, Eq, Structural)]
pub enum ChartView {
    /// The bar chart of the most frequent entries.
    Bar,
    /// The trend of dated entries over time.
    Trend,
    /// The gauge of the share of lines found.
    Gauge,
}

/// The chart shown after a key press: `q` quits (`None`), `b`, `t` and `g`
/// switch to the bar chart, the trend and the gauge, and any other key
/// leaves the chart as it is.
pub open spec fn view_after_key(current: ChartView, key: char) -> Option<ChartView> {
    if key == 'q' {
        None
    } else if key == 't' {
        Some(ChartView::Trend)
    } else if key == 'b' {
        Some(ChartView::Bar)
    } else if key == 'g' {
        Some(ChartView::Gauge)
    } else {
        Some(current)
    }
}

/// Decides what the chart screen does on a key press.
pub fn next_view(current: ChartView, key: char) -> (res: Option<ChartView>)
    ensures
        res == view_after_key(current, key),
{
    match key {
        'q' => None,
        't' => Some(ChartView::Trend),
        'b' => Some(ChartView::Bar),
        'g' => Some(ChartView::Gauge),
        _ => Some(current),
    }
}

/// The number of bars that the bar chart shows.
pub const TOP_BARS: usize = 5;

/// Entry `i` comes before entry `j` when sorted by decreasing count, ties
/// kept in their original order.
pub open spec fn ranks_before(counts: Seq<u64>, i: int, j: int) -> bool {
    counts[i] > counts[j] || (counts[i] == counts[j] && i < j)
}

/// `idx` lists the positions of the first `n` entries (all of them when
/// there are fewer) of the list sorted by decreasing count, ties kept in
/// their original order.
pub open spec fn is_top_selection(counts: Seq<u64>, idx: Seq<int>, n: nat) -> bool {
    &&& idx.len() == if n < counts.len() { n } else { counts.len() }
    &&& forall|a: int| 0 <= a < idx.len() ==> 0 <= #[trigger] idx[a] < counts.len()
    &&& forall|a: int, b: int| 0 <= a < b < idx.len() ==> ranks_before(counts, idx[a], idx[b])
    &&& forall|a: int, j: int|
        0 <= a < idx.len() && 0 <= j < counts.len() && !idx.contains(j) ==> #[trigger] ranks_before(
            counts,
            idx[a],
            j,
        )
}

/// The counts of a list of entries.
pub open spec fn counts_of(data: Seq<(String, u64)>) -> Seq<u64> {
    data.map_values(|p: (String, u64)| p.1)
}

/// The first `n` entries of `data` sorted by decreasing count, ties kept in
/// their original order (as a stable sort does).
pub fn top_entries(data: &Vec<(String, u64)>, n: usize) -> (res: Vec<(String, u64)>)
    ensures
        exists|idx: Seq<int>|
            {
                &&& is_top_selection(counts_of(data@), idx, n as nat)
                &&& res@.len() == idx.len()
                &&& forall|a: int|
                    0 <= a < idx.len() ==> (#[trigger] res@[a]).0@ == data@[idx[a]].0@ && res@[a].1
                        == data@[idx[a]].1
            },
        res@.len() == if (n as int) < data@.len() { n as int } else { data@.len() as int },
        forall|a: int, b: int| 0 <= a < b < res@.len() ==> res@[a].1 >= res@[b].1,
{
    let ghost counts = counts_of(data@);
    let len = data.len();
    let mut remaining: Vec<usize> = Vec::new();
    let mut j: usize = 0;
    while j < len
        invariant
            j <= len,
            len == data@.len(),
            remaining@.len() == j,
            forall|a: int| 0 <= a < j ==> remaining@[a] == a,
        decreases len - j,
    {
        remaining.push(j);
        j = j + 1;
    }
    proof {
        assert forall|x: int| 0 <= x < len implies #[trigger] remaining@.contains(x as usize) by {
            assert(remaining@[x] == x as usize);
        }
    }
    let limit = if n < len { n } else { len };
    let ghost mut idx: Seq<int> = seq![];
    let mut res: Vec<(String, u64)> = Vec::new();
    let mut r: usize = 0;
    while r < limit
        invariant
            r <= limit,
            limit <= len,
            limit == if n < len { n } else { len },
            len == data@.len(),
            counts == counts_of(data@),
            idx.len() == r,
            remaining@.len() + r == len,
            forall|a: int, b: int| 0 <= a < b < remaining@.len() ==> remaining@[a] < remaining@[b],
            forall|a: int| 0 <= a < remaining@.len() ==> #[trigger] remaining@[a] < len,
            forall|x: int| 0 <= x < len ==> (idx.contains(x) <==> !remaining@.contains(x as usize)),
            forall|a: int| 0 <= a < idx.len() ==> 0 <= #[trigger] idx[a] < len,
            forall|a: int, b: int| 0 <= a < b < idx.len() ==> ranks_before(counts, idx[a], idx[b]),
            forall|a: int, x: int|
                0 <= a < idx.len() && 0 <= x < len && !idx.contains(x) ==> #[trigger] ranks_before(
                    counts,
                    idx[a],
                    x,
                ),
            res@.len() == r,
            forall|a: int|
                0 <= a < r ==> (#[trigger] res@[a]).0@ == data@[idx[a]].0@ && res@[a].1 == data@[idx[a]].1,
        decreases limit - r,
    {
        let mut best: usize = 0;
        let mut k: usize = 1;
        while k < remaining.len()
            invariant
                1 <= k <= remaining@.len(),
                best < k,
                len == data@.len(),
                counts == counts_of(data@),
                forall|a: int| 0 <= a < remaining@.len() ==> #[trigger] remaining@[a] < len,
                forall|a: int, b: int| 0 <= a < b < remaining@.len() ==> remaining@[a] < remaining@[b],
                forall|a: int|
                    0 <= a < k && a != best ==> ranks_before(
                        counts,
                        remaining@[best as int] as int,
                        #[trigger] remaining@[a] as int,
                    ),
            decreases remaining@.len() - k,
        {
            proof {
                assert(counts[remaining@[k as int] as int] == data@[remaining@[k as int] as int].1);
                assert(counts[remaining@[best as int] as int] == data@[remaining@[best as int] as int].1);
            }
            if data[remaining[k]].1 > data[remaining[best]].1 {
                best = k;
            }
            k = k + 1;
        }
        let ghost old_rem = remaining@;
        let ghost old_idx = idx;
        let chosen = remaining.remove(best);
        res.push((data[chosen].0.clone(), data[chosen].1));
        proof {
            assert(chosen == old_rem[best as int]);
            assert(old_rem.contains(chosen));
            assert(!old_idx.contains(chosen as int));
            idx = idx.push(chosen as int);
            assert forall|x: int| 0 <= x < len implies (idx.contains(x) <==> !remaining@.contains(
                x as usize,
            )) by {
                if idx.contains(x) {
                    let a = choose|a: int| 0 <= a < idx.len() && idx[a] == x;
                    if a < old_idx.len() {
                        assert(old_idx[a] == x);
                        assert(old_idx.contains(x));
                    }
                    if remaining@.contains(x as usize) {
                        let b = choose|b: int| 0 <= b < remaining@.len() && remaining@[b] == x as usize;
                        if b < best {
                            assert(old_rem[b] == x as usize);
                        } else {
                            assert(old_rem[b + 1] == x as usize);
                        }
                        assert(old_rem.contains(x as usize));
                        if a == old_idx.len() {
                            assert(x == chosen);
                            if b < best {
                                assert(old_rem[b] < old_rem[best as int]);
                            } else {
                                assert(old_rem[best as int] < old_rem[b + 1]);
                            }
                        }
                    }
                } else {
                    assert(!old_idx.contains(x)) by {
                        if old_idx.contains(x) {
                            let a = choose|a: int| 0 <= a < old_idx.len() && old_idx[a] == x;
                            assert(idx[a] == x);
                        }
                    }
                    assert(x != chosen) by {
                        if x == chosen {
                            assert(idx[old_idx.len() as int] == x);
                        }
                    }
                    assert(old_rem.contains(x as usize));
                    let b = choose|b: int| 0 <= b < old_rem.len() && old_rem[b] == x as usize;
                    if b < best {
                        assert(remaining@[b] == x as usize);
                    } else {
                        assert(b != best);
                        assert(remaining@[b - 1] == x as usize);
                    }
                }
            }
            assert forall|a: int, b: int| 0 <= a < b < idx.len() implies ranks_before(
                counts,
                idx[a],
                idx[b],
            ) by {
                if b == old_idx.len() {
                    assert(idx[a] == old_idx[a]);
                    assert(ranks_before(counts, old_idx[a], chosen as int));
                } else {
                    assert(idx[a] == old_idx[a]);
                    assert(idx[b] == old_idx[b]);
                }
            }
            assert forall|a: int, x: int|
                0 <= a < idx.len() && 0 <= x < len && !idx.contains(x) implies #[trigger] ranks_before(
                counts,
                idx[a],
                x,
            ) by {
                assert(!old_idx.contains(x)) by {
                    if old_idx.contains(x) {
                        let a2 = choose|a2: int| 0 <= a2 < old_idx.len() && old_idx[a2] == x;
                        assert(idx[a2] == x);
                    }
                }
                assert(x != chosen) by {
                    if x == chosen {
                        assert(idx[old_idx.len() as int] == x);
                    }
                }
                if a < old_idx.len() {
                    assert(idx[a] == old_idx[a]);
                } else {
                    assert(old_rem.contains(x as usize));
                    let b = choose|b: int| 0 <= b < old_rem.len() && old_rem[b] == x as usize;
                    assert(b != best);
                    assert(ranks_before(counts, old_rem[best as int] as int, old_rem[b] as int));
                }
            }
            assert forall|a: int| 0 <= a < r + 1 implies (#[trigger] res@[a]).0@ == data@[idx[a]].0@
                && res@[a].1 == data@[idx[a]].1 by {
                if a < r {
                    assert(idx[a] == old_idx[a]);
                }
            }
        }
        r = r + 1;
    }
    proof {
        assert forall|a: int, x: int|
            0 <= a < idx.len() && 0 <= x < counts.len() && !idx.contains(x) implies #[trigger] ranks_before(
            counts,
            idx[a],
            x,
        ) by {}
        assert(is_top_selection(counts_of(data@), idx, n as nat));
        assert forall|a: int, b: int| 0 <= a < b < res@.len() implies res@[a].1 >= res@[b].1 by {
            assert(ranks_before(counts, idx[a], idx[b]));
            assert(counts[idx[a]] == data@[idx[a]].1);
            assert(counts[idx[b]] == data@[idx[b]].1);
        }
    }
    res
}

} // verus!
