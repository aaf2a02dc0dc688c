use vstd::prelude::*;

use crate::helpers::{extend_range, merge_adjacent_equal_value_ranges, merge_ranges};
use crate::TSPackedSamples;
use crate::TSSamples;

verus! {

pub open spec fn sum_values(s: Seq<TSSamples>) -> int
    decreases s.len(),
{
    if s.len() == 0 {
        0
    } else {
        sum_values(s.drop_last()) + s.last().1
    }
}

/// The arithmetic mean of the values, rounded down.
pub open spec fn mean_value(s: Seq<TSSamples>) -> int {
    sum_values(s) / (s.len() as int)
}

/// `v` lies in `[reference * (1 - percent / 100), reference * (1 + percent / 100)]`.
pub open spec fn in_band(v: int, reference: int, percent: int) -> bool {
    reference * (100 - percent) <= 100 * v && 100 * v <= reference * (100 + percent)
}

/// Scan of the samples against the band around `mean`: in-band samples
/// extend the open group, an out-of-band sample closes it (as a range valued
/// `mean`) and is emitted as its own point range. Returns what was emitted
/// and the open group's first and last timestamps.
pub open spec fn mean_scan(s: Seq<TSSamples>, mean: i64, percent: int) -> (
    Seq<TSPackedSamples>,
    Option<(i64, i64)>,
)
    decreases s.len(),
{
    if s.len() == 0 {
        (Seq::empty(), None)
    } else {
        let (r, g) = mean_scan(s.drop_last(), mean, percent);
        let x = s.last();
        if in_band(x.1 as int, mean as int, percent) {
            match g {
                None => (r, Some((x.0, x.0))),
                Some(open) => (r, Some((open.0, x.0))),
            }
        } else {
            let closed = match g {
                None => r,
                Some(open) => r.push((open, mean)),
            };
            (closed.push(((x.0, x.0), x.1)), None)
        }
    }
}

/// The scan with its open group closed.
pub open spec fn mean_groups(s: Seq<TSSamples>, mean: i64, percent: int) -> Seq<TSPackedSamples> {
    let (r, g) = mean_scan(s, mean, percent);
    match g {
        None => r,
        Some(open) => r.push((open, mean)),
    }
}

/// Mean-band packing of one window, followed by the merge engine.
pub open spec fn mean_packed(s: Seq<TSSamples>, percent: int, eps: int) -> Seq<TSPackedSamples> {
    if s.len() == 0 {
        Seq::empty()
    } else {
        merge_ranges(mean_groups(s, mean_value(s) as i64, percent), eps)
    }
}

/// Refinement of packed ranges: each range joins the running one when its
/// value lies in the band around the running range's value.
pub open spec fn mean_refined(s: Seq<TSPackedSamples>, percent: int) -> Seq<TSPackedSamples>
    decreases s.len(),
{
    if s.len() == 0 {
        s
    } else {
        let r = mean_refined(s.drop_last(), percent);
        let x = s.last();
        if r.len() > 0 && in_band(x.1 as int, r.last().1 as int, percent) {
            r.update(r.len() - 1, extend_range(r.last(), x))
        } else {
            r.push(x)
        }
    }
}

fn within_band(v: i64, reference: i64, percent: u8) -> (r: bool)
    ensures
        r == in_band(v as int, reference as int, percent as int),
{
    let lower_factor: i128 = 100 - percent as i128;
    let upper_factor: i128 = 100 + percent as i128;
    let m: i128 = reference as i128;
    proof {
        assert(-0x8000_0000_0000_0000 * 155 <= m * lower_factor <= 0x8000_0000_0000_0000 * 155)
            by (nonlinear_arith)
            requires
                -0x8000_0000_0000_0000 <= m <= 0x8000_0000_0000_0000,
                -155 <= lower_factor <= 155,
        ;
        assert(-0x8000_0000_0000_0000 * 355 <= m * upper_factor <= 0x8000_0000_0000_0000 * 355)
            by (nonlinear_arith)
            requires
                -0x8000_0000_0000_0000 <= m <= 0x8000_0000_0000_0000,
                0 <= upper_factor <= 355,
        ;
    }
    let scaled: i128 = 100 * (v as i128);
    m * lower_factor <= scaled && scaled <= m * upper_factor
}

proof fn lemma_sum_bounds(s: Seq<TSSamples>)
    ensures
        s.len() * i64::MIN <= sum_values(s) <= s.len() * i64::MAX,
    decreases s.len(),
{
    if s.len() > 0 {
        lemma_sum_bounds(s.drop_last());
    }
}

/// Rounded-down mean of `n` values whose sum is `sum`.
fn floor_mean(sum: i128, n: usize) -> (r: i64)
    requires
        n > 0,
        n * i64::MIN <= sum <= n * i64::MAX,
    ensures
        r == (sum as int) / (n as int),
{
    let ni: i128 = n as i128;
    proof {
        let q = (sum as int) / (n as int);
        let rem = (sum as int) % (n as int);
        vstd::arithmetic::div_mod::lemma_fundamental_div_mod(sum as int, n as int);
        assert(0 <= rem < n);
        assert(i64::MIN <= q <= i64::MAX) by (nonlinear_arith)
            requires
                sum == n * q + rem,
                0 <= rem < n,
                n * i64::MIN <= sum <= n * i64::MAX,
                n > 0,
        ;
    }
    match sum.checked_div_euclid(ni) {
        Some(q) => q as i64,
        None => 0,
    }
}

/// Bands the samples around their mean within `percent`, then merges the
/// result with tolerance `eps`.
pub fn mean_pack(samples: &[TSSamples], percent: u8, eps: u64) -> (r: Vec<TSPackedSamples>)
    ensures
        r@ == mean_packed(samples@, percent as int, eps as int),
{
    if samples.len() == 0 {
        return Vec::new();
    }
    let mut sum: i128 = 0;
    let mut i: usize = 0;
    while i < samples.len()
        invariant
            i <= samples.len(),
            sum == sum_values(samples@.take(i as int)),
        decreases samples.len() - i,
    {
        proof {
            lemma_sum_bounds(samples@.take(i as int));
            assert(samples@.take(i + 1).drop_last() =~= samples@.take(i as int));
        }
        sum = sum + samples[i].1 as i128;
        i += 1;
    }
    proof {
        assert(samples@.take(samples.len() as int) =~= samples@);
        lemma_sum_bounds(samples@);
    }
    let avg = floor_mean(sum, samples.len());
    let ghost p = percent as int;

    let mut result: Vec<TSPackedSamples> = Vec::new();
    let mut group: Option<(i64, i64)> = None;
    proof {
        assert(samples@.take(0) =~= Seq::<TSSamples>::empty());
    }
    let mut i: usize = 0;
    while i < samples.len()
        invariant
            i <= samples.len(),
            p == percent as int,
            (result@, group) == mean_scan(samples@.take(i as int), avg, p),
        decreases samples.len() - i,
    {
        let (ts, v) = samples[i];
        proof {
            assert(samples@.take(i + 1).drop_last() =~= samples@.take(i as int));
        }
        if within_band(v, avg, percent) {
            group = match group {
                None => Some((ts, ts)),
                Some((gs, _)) => Some((gs, ts)),
            };
        } else {
            match group {
                Some((gs, ge)) => {
                    result.push(((gs, ge), avg));
                },
                None => {},
            }
            group = None;
            result.push(((ts, ts), v));
        }
        i += 1;
    }
    match group {
        Some((gs, ge)) => {
            result.push(((gs, ge), avg));
        },
        None => {},
    }
    assert(samples@.take(samples.len() as int) =~= samples@);
    merge_adjacent_equal_value_ranges(result, eps)
}

/// Joins each range into the running one while its value lies within
/// `percent` of the running range's value.
pub fn mean_refine_packs(packs: Vec<TSPackedSamples>, percent: u8) -> (r: Vec<TSPackedSamples>)
    ensures
        r@ == mean_refined(packs@, percent as int),
{
    let mut merged: Vec<TSPackedSamples> = Vec::new();
    if packs.len() == 0 {
        return merged;
    }
    let mut current: TSPackedSamples = packs[0];
    proof {
        assert(packs@.take(1).drop_last() =~= Seq::<TSPackedSamples>::empty());
        assert(mean_refined(Seq::<TSPackedSamples>::empty(), percent as int).len() == 0);
        assert(merged@.push(current) =~= mean_refined(packs@.take(1), percent as int));
    }
    let mut i: usize = 1;
    while i < packs.len()
        invariant
            1 <= i <= packs.len(),
            merged@.push(current) == mean_refined(packs@.take(i as int), percent as int),
        decreases packs.len() - i,
    {
        let next = packs[i];
        let ghost m = merged@.push(current);
        proof {
            assert(packs@.take(i + 1).drop_last() =~= packs@.take(i as int));
        }
        if within_band(next.1, current.1, percent) {
            current = ((current.0.0, next.0.1), current.1);
            assert(merged@.push(current) =~= m.update(m.len() - 1, extend_range(m.last(), next)));
        } else {
            merged.push(current);
            current = next;
        }
        i += 1;
    }
    merged.push(current);
    assert(packs@.take(packs.len() as int) =~= packs@);
    merged
}

} // verus!
