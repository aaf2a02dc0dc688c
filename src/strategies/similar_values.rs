use vstd::prelude::*;

use crate::helpers::{approx_equal, values_close};
use crate::TSPackedSamples;
use crate::TSSamples;

verus! {

/// Runs of samples whose values are within `eps` of the run's first value,
/// each collapsed into one range from the run's first to its last timestamp.
pub open spec fn similar_runs(s: Seq<TSSamples>, eps: int) -> Seq<TSPackedSamples>
    decreases s.len(),
{
    if s.len() == 0 {
        Seq::empty()
    } else {
        let r = similar_runs(s.drop_last(), eps);
        let x = s.last();
        if r.len() > 0 && values_close(x.1 as int, r.last().1 as int, eps) {
            r.update(r.len() - 1, ((r.last().0.0, x.0), r.last().1))
        } else {
            r.push(((x.0, x.0), x.1))
        }
    }
}

/// Collapses runs of samples whose values are within `eps` of the run's first
/// value into ranges valued at that first value.
pub fn similar_values_pack(samples: &[TSSamples], eps: u64) -> (r: Vec<TSPackedSamples>)
    ensures
        r@ == similar_runs(samples@, eps as int),
{
    let mut result: Vec<TSPackedSamples> = Vec::new();
    if samples.len() == 0 {
        return result;
    }
    let mut run_start_ts: i64 = samples[0].0;
    let mut prev_ts: i64 = samples[0].0;
    let mut current_value: i64 = samples[0].1;
    proof {
        assert(samples@.take(1).drop_last() =~= Seq::<TSSamples>::empty());
        assert(similar_runs(Seq::<TSSamples>::empty(), eps as int).len() == 0);
        assert(result@.push(((run_start_ts, prev_ts), current_value)) =~= similar_runs(
            samples@.take(1),
            eps as int,
        ));
    }
    let mut i: usize = 1;
    while i < samples.len()
        invariant
            1 <= i <= samples.len(),
            result@.push(((run_start_ts, prev_ts), current_value)) == similar_runs(
                samples@.take(i as int),
                eps as int,
            ),
        decreases samples.len() - i,
    {
        let (ts, val) = samples[i];
        let ghost m = result@.push(((run_start_ts, prev_ts), current_value));
        proof {
            assert(samples@.take(i + 1).drop_last() =~= samples@.take(i as int));
        }
        if approx_equal(val, current_value, eps) {
            prev_ts = ts;
            assert(result@.push(((run_start_ts, prev_ts), current_value)) =~= m.update(
                m.len() - 1,
                ((m.last().0.0, ts), m.last().1),
            ));
        } else {
            result.push(((run_start_ts, prev_ts), current_value));
            run_start_ts = ts;
            prev_ts = ts;
            current_value = val;
        }
        i += 1;
    }
    result.push(((run_start_ts, prev_ts), current_value));
    assert(samples@.take(samples.len() as int) =~= samples@);
    result
}

} // verus!
