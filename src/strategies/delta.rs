use vstd::prelude::*;

use crate::TSPackedSamples;
use crate::TSSamples;

verus! {

/// Each sample as a point range; the first keeps its value, every later one
/// holds the difference from the value before it (two's-complement wrapping).
pub open spec fn delta_encode(s: Seq<TSSamples>) -> Seq<TSPackedSamples> {
    Seq::new(
        s.len(),
        |i: int|
            (
                (s[i].0, s[i].0),
                if i == 0 {
                    s[0].1
                } else {
                    vstd::wrapping::i64_specs::wrapping_sub(s[i].1, s[i - 1].1)
                },
            ),
    )
}

/// Running sums of the stored differences, at each range's start.
pub open spec fn delta_decode(p: Seq<TSPackedSamples>) -> Seq<TSSamples>
    decreases p.len(),
{
    if p.len() == 0 {
        Seq::empty()
    } else if p.len() == 1 {
        seq![(p[0].0.0, p[0].1)]
    } else {
        let d = delta_decode(p.drop_last());
        d.push((p.last().0.0, vstd::wrapping::i64_specs::wrapping_add(d.last().1, p.last().1)))
    }
}

proof fn lemma_wrapping_inverse(prev: i64, v: i64)
    ensures
        vstd::wrapping::i64_specs::wrapping_add(
            prev,
            vstd::wrapping::i64_specs::wrapping_sub(v, prev),
        ) == v,
{
}

/// Decoding the delta encoding gives back every sample exactly.
pub proof fn lemma_delta_round_trip(s: Seq<TSSamples>)
    ensures
        delta_decode(delta_encode(s)) == s,
    decreases s.len(),
{
    let e = delta_encode(s);
    if s.len() == 0 {
        assert(s =~= Seq::<TSSamples>::empty());
    } else if s.len() == 1 {
        assert(delta_decode(e) =~= s);
    } else {
        let d = s.drop_last();
        assert(e.drop_last() =~= delta_encode(d));
        lemma_delta_round_trip(d);
        lemma_wrapping_inverse(d.last().1, s.last().1);
        assert(delta_decode(e) =~= d.push(s.last()));
        assert(d.push(s.last()) =~= s);
    }
}

/// Delta encoding of values; lossless, see `lemma_delta_round_trip`.
pub struct TSPackDeltaStrategy;

impl TSPackDeltaStrategy {
    pub fn pack(samples: &[TSSamples]) -> (r: Vec<TSPackedSamples>)
        ensures
            r@ == delta_encode(samples@),
    {
        let mut packed: Vec<TSPackedSamples> = Vec::new();
        if samples.len() == 0 {
            assert(packed@ =~= delta_encode(samples@));
            return packed;
        }
        let (t0, v0) = samples[0];
        packed.push(((t0, t0), v0));
        let mut prev: i64 = v0;
        let mut i: usize = 1;
        while i < samples.len()
            invariant
                1 <= i <= samples.len(),
                prev == samples@[i - 1].1,
                packed@ == delta_encode(samples@.take(i as int)),
            decreases samples.len() - i,
        {
            let (t, v) = samples[i];
            let delta = v.wrapping_sub(prev);
            packed.push(((t, t), delta));
            prev = v;
            i += 1;
            assert(packed@ =~= delta_encode(samples@.take(i as int)));
        }
        assert(samples@.take(samples.len() as int) =~= samples@);
        packed
    }

    pub fn unpack(packed: &[TSPackedSamples]) -> (r: Vec<TSSamples>)
        ensures
            r@ == delta_decode(packed@),
    {
        let mut result: Vec<TSSamples> = Vec::new();
        if packed.len() == 0 {
            return result;
        }
        let ((t0, _), v0) = packed[0];
        result.push((t0, v0));
        let mut prev: i64 = v0;
        proof {
            assert(packed@.take(1) =~= seq![packed@[0]]);
            assert(result@ =~= delta_decode(packed@.take(1)));
        }
        let mut i: usize = 1;
        while i < packed.len()
            invariant
                1 <= i <= packed.len(),
                result@ == delta_decode(packed@.take(i as int)),
                result@.len() > 0,
                prev == result@.last().1,
            decreases packed.len() - i,
        {
            let ((t, _), delta) = packed[i];
            let v = prev.wrapping_add(delta);
            result.push((t, v));
            prev = v;
            proof {
                assert(packed@.take(i + 1).drop_last() =~= packed@.take(i as int));
            }
            i += 1;
        }
        assert(packed@.take(packed.len() as int) =~= packed@);
        result
    }
}

} // verus!
