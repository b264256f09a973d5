use vstd::prelude::*;

verus! {

// ---------------------------------------------------------------------------
// Visible window of a price history
// ---------------------------------------------------------------------------

/// Positions of the samples stamped at or after `cutoff`, in order.
pub open spec fn recent_positions(stamps: Seq<i128>, cutoff: i128) -> Seq<usize>
    decreases stamps.len(),
{
    if stamps.len() == 0 {
        Seq::empty()
    } else {
        let rest = recent_positions(stamps.drop_last(), cutoff);
        if stamps.last() >= cutoff {
            rest.push((stamps.len() - 1) as usize)
        } else {
            rest
        }
    }
}

/// `0, 1, .., n - 1`.
pub open spec fn all_positions(n: int) -> Seq<usize> {
    Seq::new(n as nat, |i: int| i as usize)
}

/// The samples shown for a timeframe: those stamped at or after `cutoff`,
/// unless fewer than two are, in which case the whole history.
pub open spec fn window_spec(stamps: Seq<i128>, cutoff: i128) -> Seq<usize> {
    let recent = recent_positions(stamps, cutoff);
    if recent.len() < 2 {
        all_positions(stamps.len() as int)
    } else {
        recent
    }
}

/// Positions of the history samples to chart for a timeframe starting at `cutoff`.
pub fn filter_history(stamps: &Vec<i128>, cutoff: i128) -> (positions: Vec<usize>)
    ensures
        positions@ == window_spec(stamps@, cutoff),
{
    let mut recent: Vec<usize> = Vec::new();
    let mut i: usize = 0;
    while i < stamps.len()
        invariant
            i <= stamps.len(),
            recent@ == recent_positions(stamps@.take(i as int), cutoff),
        decreases stamps.len() - i,
    {
        assert(stamps@.take(i + 1).drop_last() =~= stamps@.take(i as int));
        if stamps[i] >= cutoff {
            recent.push(i);
        }
        i = i + 1;
    }
    assert(stamps@.take(stamps.len() as int) =~= stamps@);
    if recent.len() < 2 {
        let mut all: Vec<usize> = Vec::new();
        let mut j: usize = 0;
        while j < stamps.len()
            invariant
                j <= stamps.len(),
                all@ == all_positions(j as int),
            decreases stamps.len() - j,
        {
            all.push(j);
            assert(all@ =~= all_positions(j + 1));
            j = j + 1;
        }
        all
    } else {
        recent
    }
}

// ---------------------------------------------------------------------------
// Compressing a series to the chart width
// ---------------------------------------------------------------------------

/// At most two samples per column of the chart (a zero width counts as one column).
pub open spec fn max_points(width: u16) -> int {
    (if width == 0 {
        1int
    } else {
        width as int
    }) * 2
}

/// Samples merged into one candle when a series of `len` is compressed.
pub open spec fn stride_for(len: int, width: u16) -> int {
    (len + max_points(width) - 1) / max_points(width)
}

/// The `i`-th chunk: `stride` samples, the last chunk possibly fewer.
pub open spec fn chunk_at(i: int, stride: int, len: int) -> (usize, usize) {
    ((i * stride) as usize, (if (i + 1) * stride < len {
        (i + 1) * stride
    } else {
        len
    }) as usize)
}

/// The chunks (start, end) whose samples are merged into one candle each when a
/// series of `len` samples does not fit the chart width; `None` when it fits and
/// is drawn as it is.
pub fn compress_to_width(len: usize, width: u16) -> (chunks: Option<Vec<(usize, usize)>>)
    requires
        len + 2 * (u16::MAX as int) <= usize::MAX,
    ensures
        chunks is None <==> len <= max_points(width),
        chunks matches Some(cs) ==> {
            let stride = stride_for(len as int, width);
            &&& stride >= 1
            &&& cs@.len() == (len + stride - 1) / stride
            &&& cs@.len() <= max_points(width)
            &&& forall|i: int| 0 <= i < cs@.len() ==> #[trigger] cs@[i] == chunk_at(i, stride, len as int)
        },
{
    let w: usize = if width == 0 {
        1
    } else {
        width as usize
    };
    let max_points: usize = w * 2;
    if len <= max_points {
        return None;
    }
    let stride: usize = (len + max_points - 1) / max_points;
    proof {
        let mp = max_points as int;
        let l = len as int;
        let s = stride as int;
        assert(s >= 1) by (nonlinear_arith)
            requires
                l > mp,
                mp >= 2,
                s == (l + mp - 1) / mp,
        ;
        // stride * max_points >= len, so at most max_points chunks are needed
        assert(s * mp >= l) by (nonlinear_arith)
            requires
                mp >= 2,
                s == (l + mp - 1) / mp,
        ;
        assert((l + s - 1) / s <= mp) by (nonlinear_arith)
            requires
                s >= 1,
                s * mp >= l,
                mp >= 2,
        ;
    }
    let mut chunks: Vec<(usize, usize)> = Vec::new();
    let mut start: usize = 0;
    let mut k: usize = 0;
    while start < len
        invariant
            stride >= 1,
            stride as int == stride_for(len as int, width),
            len > 0,
            start <= len,
            start == if k * stride < len {
                k * stride
            } else {
                len as int
            },
            start < len ==> start == k * stride,
            k * stride < len + stride,
            chunks@.len() == k,
            k <= start,
            forall|i: int| 0 <= i < k ==> #[trigger] chunks@[i] == chunk_at(i, stride as int, len as int),
        decreases len - start,
    {
        let end: usize = if stride < len - start {
            start + stride
        } else {
            len
        };
        proof {
            assert((k + 1) * stride == k * stride + stride) by (nonlinear_arith);
        }
        chunks.push((start, end));
        start = end;
        k = k + 1;
    }
    proof {
        let s = stride as int;
        let l = len as int;
        let kk = k as int;
        // k is the least count with k * stride >= len
        assert(kk * s >= l);
        assert((kk - 1) * s < l) by (nonlinear_arith)
            requires
                kk * s < l + s,
        ;
        assert(kk == (l + s - 1) / s) by (nonlinear_arith)
            requires
                kk * s >= l,
                (kk - 1) * s < l,
                s >= 1,
        ;
    }
    Some(chunks)
}

/// Law: the chunks of a compressed series cover it in order, without gaps,
/// overlaps or empty chunks.
pub proof fn lemma_chunks_partition(len: int, stride: int, n: int)
    requires
        0 < len <= usize::MAX,
        stride >= 1,
        n == (len + stride - 1) / stride,
    ensures
        n >= 1,
        chunk_at(0, stride, len).0 == 0,
        chunk_at(n - 1, stride, len).1 == len,
        forall|i: int| 0 <= i < n - 1 ==> #[trigger] chunk_at(i, stride, len).1 == chunk_at(i + 1, stride, len).0,
        forall|i: int| 0 <= i < n ==> #[trigger] chunk_at(i, stride, len).0 < chunk_at(i, stride, len).1,
{
    assert(n >= 1) by (nonlinear_arith)
        requires
            len > 0,
            stride >= 1,
            n == (len + stride - 1) / stride,
    ;
    assert(n * stride >= len && (n - 1) * stride < len) by (nonlinear_arith)
        requires
            len > 0,
            stride >= 1,
            n == (len + stride - 1) / stride,
    ;
    assert forall|i: int| 0 <= i < n - 1 implies #[trigger] chunk_at(i, stride, len).1 == chunk_at(
        i + 1,
        stride,
        len,
    ).0 by {
        assert((i + 1) * stride <= (n - 1) * stride) by (nonlinear_arith)
            requires
                0 <= i < n - 1,
                stride >= 1,
        ;
        assert(i * stride >= 0) by (nonlinear_arith)
            requires
                i >= 0,
                stride >= 1,
        ;
    }
    assert forall|i: int| 0 <= i < n implies #[trigger] chunk_at(i, stride, len).0 < chunk_at(
        i,
        stride,
        len,
    ).1 by {
        assert(i * stride <= (n - 1) * stride) by (nonlinear_arith)
            requires
                0 <= i < n,
                stride >= 1,
        ;
        assert(0 <= i * stride < len);
        assert(i * stride >= 0 && (i + 1) * stride == i * stride + stride) by (nonlinear_arith)
            requires
                i >= 0,
                stride >= 1,
        ;
    }
    assert((n - 1 + 1) * stride >= len) by (nonlinear_arith)
        requires
            n * stride >= len,
    ;
}

} // verus!

verus! {

// ---------------------------------------------------------------------------
// Date ticks under the chart
// ---------------------------------------------------------------------------

/// How a date tick is labelled: the full date, year and month, or month and day.
#[derive(Debug, Clone, Copy, PartialEq, Eq, Structural)]
pub enum DateLabel {
    Full,
    YearMonth,
    MonthDay,
}

/// How many ticks are asked for: at least two, at most one per sample.
pub open spec fn date_tick_count_spec(desired: int, len: int) -> int {
    let d = if desired < 2 {
        2
    } else {
        desired
    };
    if d < len {
        d
    } else {
        len
    }
}

pub fn date_tick_count(desired: usize, len: usize) -> (n: usize)
    requires
        len >= 2,
    ensures
        n == date_tick_count_spec(desired as int, len as int),
        2 <= n <= len,
{
    let d: usize = if desired < 2 {
        2
    } else {
        desired
    };
    if d < len {
        d
    } else {
        len
    }
}

/// Strictly increasing.
pub open spec fn strictly_increasing(s: Seq<usize>) -> bool {
    forall|i: int, j: int| 0 <= i < j < s.len() ==> s[i] < s[j]
}

/// The tick positions: the first and last sample and every rounded position,
/// clamped to the last sample.
pub open spec fn tick_positions(rounded: Seq<usize>, last: usize) -> Set<usize> {
    Set::new(
        |x: usize|
            x == 0 || x == last || exists|i: int|
                0 <= i < rounded.len() && #[trigger] rounded[i] == x && x <= last,
    )
}

/// The label of the tick at `idx`: full dates at both ends, otherwise year
/// and month over spans longer than a year, month and day below.
pub open spec fn date_label_spec(idx: usize, last: usize, total_days: i64) -> DateLabel {
    if idx == 0 || idx == last {
        DateLabel::Full
    } else if total_days > 365 {
        DateLabel::YearMonth
    } else {
        DateLabel::MonthDay
    }
}

fn insert_sorted_unique(out: &mut Vec<usize>, x: usize)
    requires
        strictly_increasing(old(out)@),
    ensures
        strictly_increasing(final(out)@),
        forall|y: usize| final(out)@.contains(y) <==> (old(out)@.contains(y) || y == x),
{
    let mut p: usize = 0;
    while p < out.len() && out[p] < x
        invariant
            p <= out.len(),
            strictly_increasing(out@),
            forall|i: int| 0 <= i < p ==> out@[i] < x,
        decreases out.len() - p,
    {
        p = p + 1;
    }
    if p < out.len() && out[p] == x {
        return;
    }
    let ghost before = out@;
    out.insert(p, x);
    proof {
        let after = out@;
        assert(after == before.insert(p as int, x));
        assert forall|i: int, j: int| 0 <= i < j < after.len() implies after[i] < after[j] by {
            if j < p {
            } else if j == p {
            } else if i < p {
                assert(after[j] == before[j - 1]);
                assert(before[p as int] > x);
            } else if i == p {
                assert(after[j] == before[j - 1]);
                assert(before[p as int] > x);
                if j - 1 > p {
                    assert(before[p as int] < before[j - 1]);
                }
            } else {
                assert(after[i] == before[i - 1]);
                assert(after[j] == before[j - 1]);
            }
        }
        assert forall|y: usize| after.contains(y) <==> (before.contains(y) || y == x) by {
            if after.contains(y) {
                let i = choose|i: int| 0 <= i < after.len() && after[i] == y;
                if i < p {
                    assert(before[i] == y);
                } else if i > p {
                    assert(before[i - 1] == y);
                }
            }
            if before.contains(y) {
                let i = choose|i: int| 0 <= i < before.len() && before[i] == y;
                if i < p {
                    assert(after[i] == y);
                } else {
                    assert(after[i + 1] == y);
                }
            }
            if y == x {
                assert(after[p as int] == x);
            }
        }
    }
}

/// The date ticks of a series of `len` samples, given the positions the
/// evenly spaced ticks rounded to (`rounded`) and the number of days the
/// series spans: positions in increasing order, each once, with their labels.
pub fn compute_date_ticks(len: usize, rounded: &Vec<usize>, total_days: i64) -> (ticks: Vec<(usize, DateLabel)>)
    ensures
        len == 0 ==> ticks@.len() == 0,
        len == 1 ==> ticks@ == seq![(0usize, DateLabel::Full)],
        len >= 2 ==> {
            let last = (len - 1) as usize;
            &&& strictly_increasing(ticks@.map_values(|t: (usize, DateLabel)| t.0))
            &&& forall|x: usize| #![trigger tick_positions(rounded@, last).contains(x)]
                (exists|i: int| 0 <= i < ticks@.len() && ticks@[i].0 == x)
                    <==> tick_positions(rounded@, last).contains(x)
            &&& forall|i: int| 0 <= i < ticks@.len() ==> #[trigger] ticks@[i].1 == date_label_spec(ticks@[i].0, last, total_days)
        },
{
    if len == 0 {
        return Vec::new();
    }
    if len == 1 {
        let mut one: Vec<(usize, DateLabel)> = Vec::new();
        one.push((0, DateLabel::Full));
        assert(one@ =~= seq![(0usize, DateLabel::Full)]);
        return one;
    }
    let last: usize = len - 1;
    let mut positions: Vec<usize> = Vec::new();
    let mut i: usize = 0;
    while i < rounded.len()
        invariant
            i <= rounded.len(),
            last == len - 1,
            strictly_increasing(positions@),
            forall|y: usize| positions@.contains(y) <==> exists|k: int|
                0 <= k < i && y == (if rounded@[k] < last { rounded@[k] } else { last }),
        decreases rounded.len() - i,
    {
        let r = rounded[i];
        let clamped: usize = if r < last { r } else { last };
        insert_sorted_unique(&mut positions, clamped);
        proof {
            assert forall|y: usize| positions@.contains(y) <==> exists|k: int|
                0 <= k < i + 1 && y == (if rounded@[k] < last { rounded@[k] } else { last }) by {
                if positions@.contains(y) && y != clamped {
                    let k = choose|k: int|
                        0 <= k < i && y == (if rounded@[k] < last { rounded@[k] } else { last });
                    assert(0 <= k < i + 1);
                }
                if y == clamped {
                    assert(y == (if rounded@[i as int] < last { rounded@[i as int] } else { last }));
                }
            }
        }
        i = i + 1;
    }
    insert_sorted_unique(&mut positions, 0);
    insert_sorted_unique(&mut positions, last);
    proof {
        let set = tick_positions(rounded@, last);
        assert forall|y: usize| positions@.contains(y) <==> set.contains(y) by {
            if positions@.contains(y) && y != 0 && y != last {
                let k = choose|k: int|
                    0 <= k < rounded.len() && y == (if rounded@[k] < last { rounded@[k] } else { last });
                assert(rounded@[k] == y && y <= last);
            }
            if set.contains(y) && y != 0 && y != last {
                let k = choose|k: int| 0 <= k < rounded.len() && #[trigger] rounded@[k] == y && y <= last;
                assert(y == (if rounded@[k] < last { rounded@[k] } else { last }));
            }
        }
    }
    let mut ticks: Vec<(usize, DateLabel)> = Vec::new();
    let mut j: usize = 0;
    while j < positions.len()
        invariant
            j <= positions.len(),
            last == len - 1,
            ticks@.len() == j,
            forall|k: int| 0 <= k < j ==> #[trigger] ticks@[k] == (positions@[k], date_label_spec(positions@[k], last, total_days)),
        decreases positions.len() - j,
    {
        let idx = positions[j];
        let label = if idx == 0 || idx == last {
            DateLabel::Full
        } else if total_days > 365 {
            DateLabel::YearMonth
        } else {
            DateLabel::MonthDay
        };
        ticks.push((idx, label));
        j = j + 1;
    }
    proof {
        let set = tick_positions(rounded@, last);
        assert(ticks@.map_values(|t: (usize, DateLabel)| t.0) =~= positions@);
        assert forall|x: usize| #![trigger set.contains(x)] (exists|i: int| 0 <= i < ticks@.len() && ticks@[i].0 == x) <==> set.contains(x) by {
            if set.contains(x) {
                assert(positions@.contains(x));
                let i = choose|i: int| 0 <= i < positions@.len() && positions@[i] == x;
                assert(ticks@[i].0 == x);
            }
            if exists|i: int| 0 <= i < ticks@.len() && ticks@[i].0 == x {
                let i = choose|i: int| 0 <= i < ticks@.len() && ticks@[i].0 == x;
                assert(positions@[i] == x);
                assert(positions@.contains(x));
            }
        }
    }
    ticks
}

} // verus!

verus! {

/// Law: a chart `width` columns wide draws at most two samples per column (a
/// zero width counts as one column).
pub proof fn lemma_max_points_per_column(width: u16)
    ensures
        width == 0 ==> max_points(width) == 2,
        width > 0 ==> max_points(width) == 2 * width,
{
}

/// Law: a series longer than the chart allows is merged with the least
/// stride that fits the width: `stride` samples per candle cover the series
/// in at most `max_points` candles, and one sample fewer per candle would not.
pub proof fn lemma_stride_is_least(len: int, width: u16)
    requires
        len > max_points(width),
    ensures
        stride_for(len, width) >= 2,
        stride_for(len, width) * max_points(width) >= len,
        (stride_for(len, width) - 1) * max_points(width) < len,
{
    let mp = max_points(width);
    let s = stride_for(len, width);
    assert(mp >= 2);
    assert(s * mp >= len && (s - 1) * mp < len && s >= 2) by (nonlinear_arith)
        requires
            mp >= 2,
            len > mp,
            s == (len + mp - 1) / mp,
    ;
}

} // verus!

verus! {

proof fn lemma_recent_positions(stamps: Seq<i128>, cutoff: i128)
    requires
        stamps.len() <= usize::MAX,
    ensures
        strictly_increasing(recent_positions(stamps, cutoff)),
        forall|k: int| 0 <= k < recent_positions(stamps, cutoff).len() ==> #[trigger] recent_positions(
            stamps,
            cutoff,
        )[k] < stamps.len(),
        forall|i: int| 0 <= i < stamps.len() ==> (stamps[i] >= cutoff <==> #[trigger] recent_positions(
            stamps,
            cutoff,
        ).contains(i as usize)),
    decreases stamps.len(),
{
    let recent = recent_positions(stamps, cutoff);
    if stamps.len() > 0 {
        let init = stamps.drop_last();
        lemma_recent_positions(init, cutoff);
        let r0 = recent_positions(init, cutoff);
        let last = (stamps.len() - 1) as usize;
        assert forall|i: int| 0 <= i < stamps.len() implies (stamps[i] >= cutoff <==> recent.contains(
            i as usize,
        )) by {
            if i < init.len() {
                assert(stamps[i] == init[i]);
                assert(r0.contains(i as usize) ==> recent.contains(i as usize)) by {
                    if r0.contains(i as usize) {
                        let k = choose|k: int| 0 <= k < r0.len() && r0[k] == i as usize;
                        assert(recent[k] == r0[k]);
                    }
                }
                assert(recent.contains(i as usize) ==> r0.contains(i as usize)) by {
                    if recent.contains(i as usize) {
                        let k = choose|k: int| 0 <= k < recent.len() && recent[k] == i as usize;
                        if k < r0.len() {
                            assert(recent[k] == r0[k]);
                        } else {
                            assert(recent[k] == last);
                        }
                    }
                }
            } else {
                if stamps.last() >= cutoff {
                    assert(recent[r0.len() as int] == last);
                } else if recent.contains(i as usize) {
                    let k = choose|k: int| 0 <= k < recent.len() && recent[k] == i as usize;
                    assert(recent[k] == r0[k]);
                }
            }
        }
    }
}

/// Law: the window of a timeframe holds, in increasing order, exactly the
/// samples stamped at or after the cutoff; when fewer than two are, it is
/// the whole history.
pub proof fn lemma_window_contents(stamps: Seq<i128>, cutoff: i128)
    requires
        stamps.len() <= usize::MAX,
    ensures
        ({
            let w = window_spec(stamps, cutoff);
            let recent = recent_positions(stamps, cutoff);
            &&& strictly_increasing(recent)
            &&& forall|i: int| 0 <= i < stamps.len() ==> (stamps[i] >= cutoff <==> #[trigger] recent.contains(i as usize))
            &&& (recent.len() >= 2 ==> w == recent)
            &&& (recent.len() < 2 ==> w.len() == stamps.len() && forall|i: int| 0 <= i < w.len() ==> w[i] == i)
        }),
{
    lemma_recent_positions(stamps, cutoff);
}

/// Law: date ticks are labelled with the full date at both ends; in between
/// with year and month when the series spans more than a year, and with
/// month and day otherwise. At least two and at most one tick per sample are
/// asked for.
pub proof fn lemma_date_labels(idx: usize, last: usize, total_days: i64, desired: int, len: int)
    ensures
        (idx == 0 || idx == last) ==> date_label_spec(idx, last, total_days) == DateLabel::Full,
        (idx != 0 && idx != last && total_days > 365) ==> date_label_spec(idx, last, total_days)
            == DateLabel::YearMonth,
        (idx != 0 && idx != last && total_days <= 365) ==> date_label_spec(idx, last, total_days)
            == DateLabel::MonthDay,
        len >= 2 ==> 2 <= date_tick_count_spec(desired, len) <= len,
        len >= 2 && 2 <= desired <= len ==> date_tick_count_spec(desired, len) == desired,
{
}

} // verus!
