use vstd::prelude::*;

use crate::TSPackedSamples;
use crate::TSSamples;

verus! {

/// XOR of the two's-complement bit patterns of two values.
pub open spec fn xor_bits(a: i64, b: i64) -> i64 {
    ((a as u64) ^ (b as u64)) as i64
}

/// Each sample as a point range; the first keeps its value, every later one
/// holds the XOR of its bit pattern with that of the value before it.
pub open spec fn xor_encode(s: Seq<TSSamples>) -> Seq<TSPackedSamples> {
    Seq::new(
        s.len(),
        |i: int|
            ((s[i].0, s[i].0), if i == 0 {
                s[0].1
            } else {
                xor_bits(s[i - 1].1, s[i].1)
            }),
    )
}

/// Bit patterns rebuilt by XOR with the value rebuilt before, at each
/// range's start.
pub open spec fn xor_decode(p: Seq<TSPackedSamples>) -> Seq<TSSamples>
    decreases p.len(),
{
    if p.len() == 0 {
        Seq::empty()
    } else if p.len() == 1 {
        seq![(p[0].0.0, p[0].1)]
    } else {
        let d = xor_decode(p.drop_last());
        d.push((p.last().0.0, xor_bits(d.last().1, p.last().1)))
    }
}

proof fn lemma_xor_cancels(a: i64, b: i64)
    ensures
        xor_bits(a, xor_bits(a, b)) == b,
{
    assert(((a as u64) ^ ((((a as u64) ^ (b as u64)) as i64) as u64)) as i64 == b) by (bit_vector);
}

/// Decoding the XOR encoding gives back every sample bit for bit.
pub proof fn lemma_xor_round_trip(s: Seq<TSSamples>)
    ensures
        xor_decode(xor_encode(s)) == s,
    decreases s.len(),
{
    let e = xor_encode(s);
    if s.len() == 0 {
        assert(s =~= Seq::<TSSamples>::empty());
    } else if s.len() == 1 {
        assert(xor_decode(e) =~= s);
    } else {
        let d = s.drop_last();
        assert(e.drop_last() =~= xor_encode(d));
        lemma_xor_round_trip(d);
        lemma_xor_cancels(d.last().1, s.last().1);
        assert(xor_decode(e) =~= d.push(s.last()));
        assert(d.push(s.last()) =~= s);
    }
}

fn xor_of(a: i64, b: i64) -> (r: i64)
    ensures
        r == xor_bits(a, b),
{
    ((a as u64) ^ (b as u64)) as i64
}

/// Gorilla-style XOR encoding; lossless, see `lemma_xor_round_trip`.
pub fn xor_pack(samples: &[TSSamples]) -> (r: Vec<TSPackedSamples>)
    ensures
        r@ == xor_encode(samples@),
{
    let mut result: Vec<TSPackedSamples> = Vec::new();
    if samples.len() == 0 {
        assert(result@ =~= xor_encode(samples@));
        return result;
    }
    let (t0, v0) = samples[0];
    result.push(((t0, t0), v0));
    let mut prev: i64 = v0;
    let mut i: usize = 1;
    while i < samples.len()
        invariant
            1 <= i <= samples.len(),
            prev == samples@[i - 1].1,
            result@ == xor_encode(samples@.take(i as int)),
        decreases samples.len() - i,
    {
        let (ts, val) = samples[i];
        let x = xor_of(prev, val);
        result.push(((ts, ts), x));
        prev = val;
        i += 1;
        assert(result@ =~= xor_encode(samples@.take(i as int)));
    }
    assert(samples@.take(samples.len() as int) =~= samples@);
    result
}

/// Inverse of `xor_pack`, reading each range's start as the timestamp.
pub fn xor_unpack(packed: &[TSPackedSamples]) -> (r: Vec<TSSamples>)
    ensures
        r@ == xor_decode(packed@),
{
    let mut result: Vec<TSSamples> = Vec::new();
    if packed.len() == 0 {
        return result;
    }
    let first_val = packed[0].1;
    result.push((packed[0].0.0, first_val));
    let mut prev: i64 = first_val;
    proof {
        assert(packed@.take(1) =~= seq![packed@[0]]);
        assert(result@ =~= xor_decode(packed@.take(1)));
    }
    let mut i: usize = 1;
    while i < packed.len()
        invariant
            1 <= i <= packed.len(),
            result@ == xor_decode(packed@.take(i as int)),
            result@.len() > 0,
            prev == result@.last().1,
        decreases packed.len() - i,
    {
        let ((ts, _), stored) = packed[i];
        let v = xor_of(prev, stored);
        result.push((ts, v));
        prev = v;
        proof {
            assert(packed@.take(i + 1).drop_last() =~= packed@.take(i as int));
        }
        i += 1;
    }
    assert(packed@.take(packed.len() as int) =~= packed@);
    result
}

} // verus!
