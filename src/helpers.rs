use vstd::prelude::*;

use crate::sorting::{
    is_sorted_by_key, lemma_sort_of_sorted, lemma_sort_sorted, sort_by_start, stable_sort, SortKey,
};
use crate::strategies::delta::{delta_decode, delta_encode, TSPackDeltaStrategy};
use crate::strategies::mean_based_compression::{
    mean_pack, mean_packed, mean_refine_packs, mean_refined,
};
use crate::strategies::similar_values::{similar_runs, similar_values_pack};
use crate::strategies::xor_gorilla::{xor_decode, xor_encode, xor_pack, xor_unpack};
use crate::TSPackStrategyType;
use crate::TSPackedSamples;
use crate::TSSamples;

verus! {

/// How far apart, in microseconds, the end of one range and the start of the
/// next may lie and still meet. Timestamps are whole microseconds, so meeting
/// means being equal.
pub const ADJACENCY_TOLERANCE_US: u64 = 0;

pub open spec fn abs_diff(a: int, b: int) -> int {
    if a >= b { a - b } else { b - a }
}

/// Tolerance-equality of two values.
pub open spec fn values_close(a: int, b: int, eps: int) -> bool {
    abs_diff(a, b) <= eps
}

/// The running range, ending at `end`, and the next range, starting at
/// `start`, touch or overlap: the gap between them is within the adjacency
/// tolerance, or the next range starts at or before `end`.
pub open spec fn ranges_touch(end: int, start: int) -> bool {
    abs_diff(end, start) <= ADJACENCY_TOLERANCE_US || start <= end
}

/// Adjacency check of the merge engine (see `ranges_touch`).
pub fn approx_touching(end: i64, start: i64) -> (r: bool)
    ensures
        r == ranges_touch(end as int, start as int),
{
    let gap: i128 = if end >= start { end as i128 - start as i128 } else { start as i128 - end as i128 };
    gap <= ADJACENCY_TOLERANCE_US as i128 || start <= end
}

/// Tolerance-equality: `|a - b| <= eps`.
pub fn approx_equal(a: i64, b: i64, eps: u64) -> (r: bool)
    ensures
        r == values_close(a as int, b as int, eps as int),
{
    let d: i128 = if a >= b { a as i128 - b as i128 } else { b as i128 - a as i128 };
    d <= eps as i128
}

/// The sequences of `ws`, joined in order.
pub open spec fn concat(ws: Seq<Seq<TSSamples>>) -> Seq<TSSamples>
    decreases ws.len(),
{
    if ws.len() == 0 {
        Seq::empty()
    } else {
        concat(ws.drop_last()) + ws.last()
    }
}

pub open spec fn windows_view(ws: Seq<Vec<TSSamples>>) -> Seq<Seq<TSSamples>> {
    ws.map_values(|w: Vec<TSSamples>| w@)
}

/// A non-empty group whose timestamps all lie within `width` of its first one.
pub open spec fn fits_window(w: Seq<TSSamples>, width: int) -> bool {
    &&& w.len() > 0
    &&& forall|j: int| 0 <= j < w.len() ==> #[trigger] w[j].0 - w[0].0 <= width
}

/// Every group fits its window, and each group starts with the first sample
/// that falls outside the window of the group before it.
pub open spec fn windows_well_formed(ws: Seq<Seq<TSSamples>>, width: int) -> bool {
    &&& forall|k: int| 0 <= k < ws.len() ==> fits_window(#[trigger] ws[k], width)
    &&& forall|k: int|
        0 <= k < ws.len() - 1 ==> #[trigger] ws[k + 1][0].0 - ws[k][0].0 > width
}

/// `ws` is the greedy partition of `s` into time windows of `width`.
pub open spec fn is_window_split(s: Seq<TSSamples>, ws: Seq<Seq<TSSamples>>, width: int) -> bool {
    &&& concat(ws) == s
    &&& windows_well_formed(ws, width)
}

pub proof fn lemma_concat_push(ws: Seq<Seq<TSSamples>>, w: Seq<TSSamples>)
    ensures
        concat(ws.push(w)) == concat(ws) + w,
{
    assert(ws.push(w).drop_last() =~= ws);
}

/// Windows of a split are non-empty, each spans at most `width` from its
/// first to its last timestamp, each ends strictly before the next begins,
/// and together, in order, they are exactly the input.
pub proof fn lemma_window_split_partitions(s: Seq<TSSamples>, ws: Seq<Seq<TSSamples>>, width: int)
    requires
        is_window_split(s, ws, width),
    ensures
        concat(ws) == s,
        forall|k: int| 0 <= k < ws.len() ==> (#[trigger] ws[k]).len() > 0,
        forall|k: int| 0 <= k < ws.len() ==> #[trigger] ws[k].last().0 - ws[k][0].0 <= width,
        forall|k: int| 0 <= k < ws.len() - 1 ==> #[trigger] ws[k].last().0 < ws[k + 1][0].0,
{
    assert forall|k: int| 0 <= k < ws.len() implies #[trigger] ws[k].last().0 - ws[k][0].0 <= width by {
        assert(fits_window(ws[k], width));
        assert(ws[k][ws[k].len() - 1].0 - ws[k][0].0 <= width);
    }
    assert forall|k: int| 0 <= k < ws.len() - 1 implies #[trigger] ws[k].last().0 < ws[k + 1][0].0 by {
        assert(fits_window(ws[k], width));
        assert(ws[k][ws[k].len() - 1].0 - ws[k][0].0 <= width);
        assert(ws[k + 1][0].0 - ws[k][0].0 > width);
    }
    assert forall|k: int| 0 <= k < ws.len() implies (#[trigger] ws[k]).len() > 0 by {
        assert(fits_window(ws[k], width));
    }
}

pub proof fn lemma_concat_front(ws: Seq<Seq<TSSamples>>)
    requires
        ws.len() > 0,
    ensures
        concat(ws) == ws[0] + concat(ws.skip(1)),
    decreases ws.len(),
{
    if ws.len() == 1 {
        assert(ws.drop_last() =~= Seq::<Seq<TSSamples>>::empty());
        assert(ws.skip(1) =~= Seq::<Seq<TSSamples>>::empty());
        assert(concat(ws) =~= ws[0] + concat(ws.skip(1)));
    } else {
        let d = ws.drop_last();
        lemma_concat_front(d);
        assert(d.skip(1) =~= ws.skip(1).drop_last());
        assert(ws.skip(1).last() == ws.last());
        assert(d[0] == ws[0]);
        assert(concat(ws) =~= ws[0] + concat(ws.skip(1)));
    }
}

proof fn lemma_concat_len_positive(ws: Seq<Seq<TSSamples>>, width: int)
    requires
        windows_well_formed(ws, width),
        ws.len() > 0,
    ensures
        concat(ws).len() >= ws[0].len() > 0,
{
    lemma_concat_front(ws);
    assert(fits_window(ws[0], width));
}

proof fn lemma_well_formed_skip(ws: Seq<Seq<TSSamples>>, width: int)
    requires
        windows_well_formed(ws, width),
        ws.len() > 0,
    ensures
        windows_well_formed(ws.skip(1), width),
{
    let t = ws.skip(1);
    assert forall|k: int| 0 <= k < t.len() implies fits_window(#[trigger] t[k], width) by {
        assert(t[k] == ws[k + 1]);
    }
    assert forall|k: int| 0 <= k < t.len() - 1 implies #[trigger] t[k + 1][0].0 - t[k][0].0 > width by {
        assert(t[k] == ws[k + 1]);
        assert(t[k + 1] == ws[k + 2]);
    }
}

/// A split's first window is as long as the other's.
proof fn lemma_first_windows_agree(
    s: Seq<TSSamples>,
    a: Seq<Seq<TSSamples>>,
    b: Seq<Seq<TSSamples>>,
    width: int,
)
    requires
        is_window_split(s, a, width),
        is_window_split(s, b, width),
        a.len() > 0,
        b.len() > 0,
    ensures
        a[0].len() <= b[0].len(),
{
    lemma_concat_front(a);
    lemma_concat_front(b);
    if a[0].len() > b[0].len() {
        let n = b[0].len() as int;
        if b.len() == 1 {
            assert(b.skip(1) =~= Seq::<Seq<TSSamples>>::empty());
            assert(s.len() == n);
            assert(s.len() >= a[0].len());
        } else {
            let rest = b.skip(1);
            lemma_well_formed_skip(b, width);
            lemma_concat_front(rest);
            assert(fits_window(rest[0], width));
            assert(s[n] == rest[0][0]);
            assert(rest[0] == b[1]);
            assert(b[1][0].0 - b[0][0].0 > width);
            assert(s[n] == a[0][n]);
            assert(fits_window(a[0], width));
            assert(a[0][n].0 - a[0][0].0 <= width);
            assert(fits_window(b[0], width));
            assert(a[0][0] == s[0]);
            assert(b[0][0] == s[0]);
        }
    }
}

/// A sequence has one window split only.
pub proof fn lemma_window_split_unique(
    s: Seq<TSSamples>,
    a: Seq<Seq<TSSamples>>,
    b: Seq<Seq<TSSamples>>,
    width: int,
)
    requires
        is_window_split(s, a, width),
        is_window_split(s, b, width),
    ensures
        a == b,
    decreases s.len(),
{
    if a.len() == 0 || b.len() == 0 {
        if a.len() > 0 {
            lemma_concat_len_positive(a, width);
        }
        if b.len() > 0 {
            lemma_concat_len_positive(b, width);
        }
        assert(a =~= b);
    } else {
        lemma_first_windows_agree(s, a, b, width);
        lemma_first_windows_agree(s, b, a, width);
        lemma_concat_front(a);
        lemma_concat_front(b);
        let n = a[0].len() as int;
        assert(fits_window(a[0], width));
        assert(a[0] =~= s.take(n));
        assert(b[0] =~= s.take(n));
        assert(concat(a.skip(1)) =~= s.skip(n));
        assert(concat(b.skip(1)) =~= s.skip(n));
        lemma_well_formed_skip(a, width);
        lemma_well_formed_skip(b, width);
        lemma_window_split_unique(s.skip(n), a.skip(1), b.skip(1), width);
        assert(a =~= seq![a[0]] + a.skip(1));
        assert(b =~= seq![b[0]] + b.skip(1));
    }
}

/// The window split of `s`: the one sequence of groups that satisfies
/// `is_window_split` (see `lemma_window_split_unique`).
pub open spec fn window_split(s: Seq<TSSamples>, width: int) -> Seq<Seq<TSSamples>> {
    choose|ws: Seq<Seq<TSSamples>>| is_window_split(s, ws, width)
}

/// Any split is the window split.
pub proof fn lemma_is_window_split(s: Seq<TSSamples>, ws: Seq<Seq<TSSamples>>, width: int)
    requires
        is_window_split(s, ws, width),
    ensures
        window_split(s, width) == ws,
{
    lemma_window_split_unique(s, window_split(s, width), ws, width);
}

/// Partitions time-sorted samples into consecutive groups: a group takes
/// samples while they lie within `micro_window` microseconds of its first
/// sample, and the first one beyond starts the next group.
pub fn split_into_windows(samples: &[TSSamples], micro_window: u64) -> (r: Vec<Vec<TSSamples>>)
    ensures
        is_window_split(samples@, windows_view(r@), micro_window as int),
        windows_view(r@) == window_split(samples@, micro_window as int),
{
    let ghost width = micro_window as int;
    let mut windows: Vec<Vec<TSSamples>> = Vec::new();
    if samples.len() == 0 {
        assert(windows_view(windows@) =~= Seq::<Seq<TSSamples>>::empty());
        assert(samples@ =~= Seq::<TSSamples>::empty());
        proof {
            lemma_is_window_split(samples@, windows_view(windows@), micro_window as int);
        }
        return windows;
    }
    let mut current: Vec<TSSamples> = Vec::new();
    let mut window_start_ts: i64 = samples[0].0;
    let mut i: usize = 0;
    while i < samples.len()
        invariant
            0 <= i <= samples.len(),
            samples.len() > 0,
            width == micro_window as int,
            concat(windows_view(windows@)) + current@ == samples@.take(i as int),
            i > 0 ==> current@.len() > 0 && current@[0].0 == window_start_ts,
            i == 0 ==> current@.len() == 0 && window_start_ts == samples@[0].0,
            forall|j: int| 0 <= j < current@.len() ==> #[trigger] current@[j].0 - window_start_ts <= width,
            windows_well_formed(windows_view(windows@), width),
            windows@.len() > 0 ==> window_start_ts - windows_view(windows@).last()[0].0 > width,
        decreases samples.len() - i,
    {
        let (ts, val) = samples[i];
        let ghost old_windows = windows_view(windows@);
        let ghost old_start = window_start_ts;
        let ghost old_current = current@;
        let gap: i128 = ts as i128 - window_start_ts as i128;
        let limit: i128 = micro_window as i128;
        if gap <= limit {
            assert(ts - window_start_ts <= width);
            current.push((ts, val));
            assert(samples@.take(i + 1) =~= samples@.take(i as int).push((ts, val)));
            assert forall|j: int| 0 <= j < current@.len() implies #[trigger] current@[j].0
                - window_start_ts <= width by {
                if j < current@.len() - 1 {
                    assert(current@[j] == old_current[j]);
                }
            }
        } else {
            let ghost closed = current@;
            windows.push(current);
            assert(windows_view(windows@) =~= old_windows.push(closed));
            proof {
                lemma_concat_push(old_windows, closed);
            }
            current = Vec::new();
            window_start_ts = ts;
            current.push((ts, val));
            assert(samples@.take(i + 1) =~= samples@.take(i as int).push((ts, val)));
            assert(concat(windows_view(windows@)) + current@ =~= samples@.take(i + 1));
            assert(fits_window(closed, width));
            assert(windows_view(windows@).last() == closed);
            assert(ts - old_start > width);
        }
        i += 1;
    }
    let ghost old_windows = windows_view(windows@);
    let ghost closed = current@;
    windows.push(current);
    assert(windows_view(windows@) =~= old_windows.push(closed));
    proof {
        lemma_concat_push(old_windows, closed);
    }
    assert(samples@.take(samples.len() as int) =~= samples@);
    proof {
        lemma_is_window_split(samples@, windows_view(windows@), width);
    }
    windows
}


/// The running range `cur` absorbs `next`.
pub open spec fn coalesces(cur: TSPackedSamples, next: TSPackedSamples, eps: int) -> bool {
    values_close(cur.1 as int, next.1 as int, eps) && ranges_touch(cur.0.1 as int, next.0.0 as int)
}

/// `cur` stretched to the end of `next`, keeping its start and value.
pub open spec fn extend_range(cur: TSPackedSamples, next: TSPackedSamples) -> TSPackedSamples {
    ((cur.0.0, next.0.1), cur.1)
}

/// Left-to-right scan that coalesces each range into the running one when
/// they coalesce, and otherwise starts a new running range.
pub open spec fn merge_scan(s: Seq<TSPackedSamples>, eps: int) -> Seq<TSPackedSamples>
    decreases s.len(),
{
    if s.len() == 0 {
        s
    } else {
        let m = merge_scan(s.drop_last(), eps);
        let x = s.last();
        if m.len() > 0 && coalesces(m.last(), x, eps) {
            m.update(m.len() - 1, extend_range(m.last(), x))
        } else {
            m.push(x)
        }
    }
}

/// The merge engine: stable sort by start, then the coalescing scan.
pub open spec fn merge_ranges(s: Seq<TSPackedSamples>, eps: int) -> Seq<TSPackedSamples> {
    merge_scan(sort_by_start(s), eps)
}

/// No two neighbours of `s` coalesce.
pub open spec fn no_coalescing_neighbours(s: Seq<TSPackedSamples>, eps: int) -> bool {
    forall|k: int| 0 <= k < s.len() - 1 ==> !coalesces(#[trigger] s[k], s[k + 1], eps)
}

pub proof fn lemma_merge_scan_shape(s: Seq<TSPackedSamples>, eps: int)
    requires
        is_sorted_by_key(s, |p: TSPackedSamples| p.sort_key()),
    ensures
        is_sorted_by_key(merge_scan(s, eps), |p: TSPackedSamples| p.sort_key()),
        no_coalescing_neighbours(merge_scan(s, eps), eps),
        s.len() > 0 ==> merge_scan(s, eps).len() > 0 && merge_scan(s, eps).last().0.0
            <= s.last().0.0,
    decreases s.len(),
{
    let key = |p: TSPackedSamples| p.sort_key();
    if s.len() > 0 {
        let d = s.drop_last();
        assert(is_sorted_by_key(d, key));
        lemma_merge_scan_shape(d, eps);
        let m = merge_scan(d, eps);
        let x = s.last();
        if d.len() > 0 {
            assert(key(s[d.len() - 1]) <= key(s[s.len() - 1]));
        }
        if m.len() > 0 && coalesces(m.last(), x, eps) {
            let r = m.update(m.len() - 1, extend_range(m.last(), x));
            assert forall|a: int, b: int| 0 <= a <= b < r.len() implies key(#[trigger] r[a]) <= key(
                #[trigger] r[b],
            ) by {
                assert(key(m[a]) <= key(m[b]));
            }
            assert forall|k: int| 0 <= k < r.len() - 1 implies !coalesces(
                #[trigger] r[k],
                r[k + 1],
                eps,
            ) by {
                assert(!coalesces(m[k], m[k + 1], eps));
            }
        } else {
            let r = m.push(x);
            assert forall|a: int, b: int| 0 <= a <= b < r.len() implies key(#[trigger] r[a]) <= key(
                #[trigger] r[b],
            ) by {
                if b == m.len() && a < b {
                    assert(key(m[a]) <= key(m[m.len() - 1]));
                }
            }
            assert forall|k: int| 0 <= k < r.len() - 1 implies !coalesces(
                #[trigger] r[k],
                r[k + 1],
                eps,
            ) by {
                if k < m.len() - 1 {
                    assert(!coalesces(m[k], m[k + 1], eps));
                }
            }
        }
    }
}

/// The scan leaves alone a sequence whose neighbours do not coalesce.
pub proof fn lemma_merge_scan_fixpoint(s: Seq<TSPackedSamples>, eps: int)
    requires
        no_coalescing_neighbours(s, eps),
    ensures
        merge_scan(s, eps) == s,
    decreases s.len(),
{
    if s.len() > 0 {
        let d = s.drop_last();
        assert forall|k: int| 0 <= k < d.len() - 1 implies !coalesces(#[trigger] d[k], d[k + 1], eps) by {
            assert(!coalesces(s[k], s[k + 1], eps));
        }
        lemma_merge_scan_fixpoint(d, eps);
        if d.len() > 0 {
            assert(!coalesces(s[d.len() - 1], s[d.len() as int], eps));
        }
        assert(d.push(s.last()) =~= s);
    }
}

/// Merging is idempotent: merging the output of a merge changes nothing.
pub proof fn lemma_merge_idempotent(s: Seq<TSPackedSamples>, eps: int)
    ensures
        merge_ranges(merge_ranges(s, eps), eps) == merge_ranges(s, eps),
{
    let key = |p: TSPackedSamples| p.sort_key();
    lemma_sort_sorted(s, key);
    lemma_merge_scan_shape(sort_by_start(s), eps);
    let m = merge_ranges(s, eps);
    lemma_sort_of_sorted(m, key);
    lemma_merge_scan_fixpoint(m, eps);
}

/// Coalesces ranges: sorts them by start (stably), then merges each range into
/// the running one while their values are within `eps` and their spans touch
/// or overlap.
pub fn merge_adjacent_equal_value_ranges(packed: Vec<TSPackedSamples>, eps: u64) -> (r: Vec<
    TSPackedSamples,
>)
    ensures
        r@ == merge_ranges(packed@, eps as int),
        is_sorted_by_key(r@, |p: TSPackedSamples| p.sort_key()),
        no_coalescing_neighbours(r@, eps as int),
{
    proof {
        lemma_sort_sorted(packed@, |p: TSPackedSamples| p.sort_key());
        lemma_merge_scan_shape(sort_by_start(packed@), eps as int);
    }
    let sorted = stable_sort(&packed);
    let mut result: Vec<TSPackedSamples> = Vec::new();
    if sorted.len() == 0 {
        return result;
    }
    let mut current: TSPackedSamples = sorted[0];
    proof {
        assert(sorted@.take(1).drop_last() =~= Seq::<TSPackedSamples>::empty());
        assert(merge_scan(Seq::<TSPackedSamples>::empty(), eps as int).len() == 0);
        assert(result@.push(current) =~= merge_scan(sorted@.take(1), eps as int));
    }
    let mut i: usize = 1;
    while i < sorted.len()
        invariant
            1 <= i <= sorted.len(),
            result@.push(current) == merge_scan(sorted@.take(i as int), eps as int),
        decreases sorted.len() - i,
    {
        let next = sorted[i];
        let ghost m = result@.push(current);
        proof {
            assert(sorted@.take(i + 1).drop_last() =~= sorted@.take(i as int));
        }
        if approx_equal(current.1, next.1, eps) && approx_touching(current.0.1, next.0.0) {
            current = ((current.0.0, next.0.1), current.1);
            assert(result@.push(current) =~= m.update(m.len() - 1, extend_range(m.last(), next)));
        } else {
            result.push(current);
            current = next;
        }
        i += 1;
    }
    result.push(current);
    assert(sorted@.take(sorted.len() as int) =~= sorted@);
    result
}


/// What flows between the stages of the pipeline: raw samples or packed
/// ranges.
#[derive(Debug, Clone)]
pub enum Representation {
    Raw(Vec<TSSamples>),
    Packed(Vec<TSPackedSamples>),
}

pub enum RepresentationModel {
    Raw(Seq<TSSamples>),
    Packed(Seq<TSPackedSamples>),
}

impl View for Representation {
    type V = RepresentationModel;

    open spec fn view(&self) -> RepresentationModel {
        match self {
            Representation::Raw(s) => RepresentationModel::Raw(s@),
            Representation::Packed(p) => RepresentationModel::Packed(p@),
        }
    }
}

/// One stage of the pipeline. Similar-values and mean refine packed ranges in
/// place; XOR and delta restore raw values and encode them again.
pub open spec fn strategy_step(
    rep: RepresentationModel,
    strategy: TSPackStrategyType,
    eps: int,
) -> RepresentationModel {
    match strategy {
        TSPackStrategyType::TSPackSimilarValuesStrategy => match rep {
            RepresentationModel::Raw(s) => RepresentationModel::Packed(similar_runs(s, eps)),
            RepresentationModel::Packed(p) => RepresentationModel::Packed(merge_ranges(p, eps)),
        },
        TSPackStrategyType::TSPackMeanStrategy { values_compression_percent } => match rep {
            RepresentationModel::Raw(s) => RepresentationModel::Packed(
                mean_packed(s, values_compression_percent as int, eps),
            ),
            RepresentationModel::Packed(p) => RepresentationModel::Packed(
                mean_refined(p, values_compression_percent as int),
            ),
        },
        TSPackStrategyType::TSPackXorStrategy => match rep {
            RepresentationModel::Raw(s) => RepresentationModel::Packed(xor_encode(s)),
            RepresentationModel::Packed(p) => RepresentationModel::Packed(xor_encode(xor_decode(p))),
        },
        TSPackStrategyType::TSPackDeltaStrategy => match rep {
            RepresentationModel::Raw(s) => RepresentationModel::Packed(delta_encode(s)),
            RepresentationModel::Packed(p) => RepresentationModel::Packed(
                delta_encode(delta_decode(p)),
            ),
        },
    }
}

/// Raw samples become point ranges; packed ranges stay as they are.
pub open spec fn finalized(rep: RepresentationModel) -> Seq<TSPackedSamples> {
    match rep {
        RepresentationModel::Raw(s) => Seq::new(s.len(), |i: int| ((s[i].0, s[i].0), s[i].1)),
        RepresentationModel::Packed(p) => p,
    }
}

pub fn apply_strategy(
    representation: Representation,
    strategy: &TSPackStrategyType,
    precision_epsilon: u64,
) -> (r: Representation)
    ensures
        r@ == strategy_step(representation@, *strategy, precision_epsilon as int),
{
    match strategy {
        TSPackStrategyType::TSPackSimilarValuesStrategy => match representation {
            Representation::Raw(samples) => {
                Representation::Packed(similar_values_pack(&samples, precision_epsilon))
            },
            Representation::Packed(packs) => {
                Representation::Packed(merge_adjacent_equal_value_ranges(packs, precision_epsilon))
            },
        },
        TSPackStrategyType::TSPackMeanStrategy { values_compression_percent } => match representation {
            Representation::Raw(samples) => {
                Representation::Packed(
                    mean_pack(&samples, *values_compression_percent, precision_epsilon),
                )
            },
            Representation::Packed(packs) => {
                Representation::Packed(mean_refine_packs(packs, *values_compression_percent))
            },
        },
        TSPackStrategyType::TSPackXorStrategy => match representation {
            Representation::Raw(samples) => Representation::Packed(xor_pack(&samples)),
            Representation::Packed(packs) => {
                let raw = xor_unpack(&packs);
                Representation::Packed(xor_pack(&raw))
            },
        },
        TSPackStrategyType::TSPackDeltaStrategy => match representation {
            Representation::Raw(samples) => Representation::Packed(TSPackDeltaStrategy::pack(&samples)),
            Representation::Packed(packs) => {
                let raw = TSPackDeltaStrategy::unpack(&packs);
                Representation::Packed(TSPackDeltaStrategy::pack(&raw))
            },
        },
    }
}

pub fn finalize_to_packed(representation: Representation) -> (r: Vec<TSPackedSamples>)
    ensures
        r@ == finalized(representation@),
{
    match representation {
        Representation::Raw(samples) => {
            let mut out: Vec<TSPackedSamples> = Vec::new();
            let mut i: usize = 0;
            while i < samples.len()
                invariant
                    i <= samples.len(),
                    out@ =~= Seq::new(i as nat, |k: int| ((samples@[k].0, samples@[k].0), samples@[k].1)),
                decreases samples.len() - i,
            {
                let (ts, v) = samples[i];
                out.push(((ts, ts), v));
                i += 1;
            }
            out
        },
        Representation::Packed(packs) => packs,
    }
}

} // verus!
