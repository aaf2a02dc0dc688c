use vstd::prelude::*;

use crate::TSPackedSamples;
use crate::TSSamples;

verus! {

/// Inserts `x` after the last element whose key is at most `x`'s key,
/// scanning from the end: the step of a stable insertion sort.
pub open spec fn insert_by_key<T>(s: Seq<T>, x: T, key: spec_fn(T) -> int) -> Seq<T>
    decreases s.len(),
{
    if s.len() == 0 || key(s.last()) <= key(x) {
        s.push(x)
    } else {
        insert_by_key(s.drop_last(), x, key).push(s.last())
    }
}

/// Stable sort of `s` by `key`: equal keys keep their order of input.
pub open spec fn sort_by_key<T>(s: Seq<T>, key: spec_fn(T) -> int) -> Seq<T>
    decreases s.len(),
{
    if s.len() == 0 {
        s
    } else {
        insert_by_key(sort_by_key(s.drop_last(), key), s.last(), key)
    }
}

pub open spec fn is_sorted_by_key<T>(s: Seq<T>, key: spec_fn(T) -> int) -> bool {
    forall|a: int, b: int| 0 <= a <= b < s.len() ==> key(#[trigger] s[a]) <= key(#[trigger] s[b])
}

/// The key by which a sequence is sorted.
pub trait SortKey {
    spec fn sort_key(&self) -> int;

    fn key(&self) -> (r: i64)
        ensures
            r as int == self.sort_key(),
    ;
}

/// Samples are sorted by timestamp.
impl SortKey for TSSamples {
    open spec fn sort_key(&self) -> int {
        self.0 as int
    }

    fn key(&self) -> (r: i64) {
        self.0
    }
}

/// Ranges are sorted by start.
impl SortKey for TSPackedSamples {
    open spec fn sort_key(&self) -> int {
        self.0.0 as int
    }

    fn key(&self) -> (r: i64) {
        self.0.0
    }
}

/// Samples in stable order of timestamp.
pub open spec fn sort_by_time(s: Seq<TSSamples>) -> Seq<TSSamples> {
    sort_by_key(s, |p: TSSamples| p.sort_key())
}

/// Ranges in stable order of start.
pub open spec fn sort_by_start(s: Seq<TSPackedSamples>) -> Seq<TSPackedSamples> {
    sort_by_key(s, |p: TSPackedSamples| p.sort_key())
}

/// Where the scan for `x` stops at `j`, the insertion is a splice at `j`.
pub proof fn lemma_insert_splice<T>(o: Seq<T>, x: T, key: spec_fn(T) -> int, j: int)
    requires
        0 <= j <= o.len(),
        j == 0 || key(o[j - 1]) <= key(x),
        forall|k: int| j <= k < o.len() ==> key(#[trigger] o[k]) > key(x),
    ensures
        insert_by_key(o, x, key) == o.take(j).push(x) + o.skip(j),
    decreases o.len() - j,
{
    if j == o.len() {
        assert(o.skip(j) =~= Seq::<T>::empty());
        assert(o.take(j) =~= o);
    } else {
        assert(key(o[o.len() - 1]) > key(x));
        let d = o.drop_last();
        assert forall|k: int| j <= k < d.len() implies key(#[trigger] d[k]) > key(x) by {
            assert(d[k] == o[k]);
        }
        if j > 0 {
            assert(d[j - 1] == o[j - 1]);
        }
        lemma_insert_splice(d, x, key, j);
        assert(d.take(j) =~= o.take(j));
        assert(d.skip(j).push(o.last()) =~= o.skip(j));
        assert(o.take(j).push(x) + o.skip(j) =~= (d.take(j).push(x) + d.skip(j)).push(o.last()));
    }
}

pub proof fn lemma_insert_keeps_sorted<T>(o: Seq<T>, x: T, key: spec_fn(T) -> int)
    requires
        is_sorted_by_key(o, key),
    ensures
        is_sorted_by_key(insert_by_key(o, x, key), key),
        insert_by_key(o, x, key).len() == o.len() + 1,
        insert_by_key(o, x, key).last() == x || insert_by_key(o, x, key).last() == o.last(),
    decreases o.len(),
{
    if o.len() == 0 || key(o.last()) <= key(x) {
        let r = o.push(x);
        assert forall|a: int, b: int| 0 <= a <= b < r.len() implies key(#[trigger] r[a]) <= key(
            #[trigger] r[b],
        ) by {
            if b == o.len() && a < b {
                assert(key(o[a]) <= key(o[o.len() - 1]));
            }
        }
    } else {
        let d = o.drop_last();
        assert(is_sorted_by_key(d, key));
        lemma_insert_keeps_sorted(d, x, key);
        let i = insert_by_key(d, x, key);
        let r = i.push(o.last());
        assert forall|a: int, b: int| 0 <= a <= b < r.len() implies key(#[trigger] r[a]) <= key(
            #[trigger] r[b],
        ) by {
            if b == i.len() && a < b {
                // every element of i is x or an element of d
                if d.len() > 0 {
                    assert(key(d.last()) <= key(o.last()));
                }
                lemma_insert_elements_bounded(d, x, key, key(o.last()));
            }
        }
    }
}

/// Every element of an insertion is bounded by `m` when all inputs are.
pub proof fn lemma_insert_elements_bounded<T>(o: Seq<T>, x: T, key: spec_fn(T) -> int, m: int)
    requires
        forall|k: int| 0 <= k < o.len() ==> key(#[trigger] o[k]) <= m,
        key(x) <= m,
    ensures
        forall|k: int|
            0 <= k < insert_by_key(o, x, key).len() ==> key(#[trigger] insert_by_key(o, x, key)[k])
                <= m,
    decreases o.len(),
{
    if o.len() == 0 || key(o.last()) <= key(x) {
    } else {
        let d = o.drop_last();
        assert forall|k: int| 0 <= k < d.len() implies key(#[trigger] d[k]) <= m by {
            assert(d[k] == o[k]);
        }
        lemma_insert_elements_bounded(d, x, key, m);
        assert(key(o[o.len() - 1]) <= m);
        let i = insert_by_key(d, x, key);
        assert forall|k: int| 0 <= k < i.push(o.last()).len() implies key(
            #[trigger] i.push(o.last())[k],
        ) <= m by {
            if k < i.len() {
                assert(i.push(o.last())[k] == i[k]);
            }
        }
    }
}

pub proof fn lemma_sort_sorted<T>(s: Seq<T>, key: spec_fn(T) -> int)
    ensures
        is_sorted_by_key(sort_by_key(s, key), key),
        sort_by_key(s, key).len() == s.len(),
    decreases s.len(),
{
    if s.len() > 0 {
        lemma_sort_sorted(s.drop_last(), key);
        lemma_insert_keeps_sorted(sort_by_key(s.drop_last(), key), s.last(), key);
    }
}

/// Sorting what is already sorted changes nothing.
pub proof fn lemma_sort_of_sorted<T>(s: Seq<T>, key: spec_fn(T) -> int)
    requires
        is_sorted_by_key(s, key),
    ensures
        sort_by_key(s, key) == s,
    decreases s.len(),
{
    if s.len() > 0 {
        let d = s.drop_last();
        assert(is_sorted_by_key(d, key));
        lemma_sort_of_sorted(d, key);
        if d.len() > 0 {
            assert(key(s[d.len() - 1]) <= key(s[s.len() - 1]));
        }
        assert(d.push(s.last()) =~= s);
    }
}

/// Stable insertion sort by `sort_key`: equal keys keep their input order.
pub fn stable_sort<T: SortKey + Copy>(v: &[T]) -> (r: Vec<T>)
    ensures
        r@ == sort_by_key(v@, |p: T| p.sort_key()),
{
    let ghost key = |p: T| p.sort_key();
    let mut out: Vec<T> = Vec::new();
    let mut i: usize = 0;
    while i < v.len()
        invariant
            i <= v.len(),
            key == (|p: T| p.sort_key()),
            out@ == sort_by_key(v@.take(i as int), key),
        decreases v.len() - i,
    {
        let x = v[i];
        let ghost o = out@;
        out.push(x);
        let mut j: usize = out.len() - 1;
        while j > 0 && out[j - 1].key() > x.key()
            invariant
                0 <= j <= o.len(),
                out@.len() == o.len() + 1,
                out@.take(j as int) == o.take(j as int),
                out@.skip(j + 1) == o.skip(j as int),
                forall|k: int| j <= k < o.len() ==> key(#[trigger] o[k]) > key(x),
                key == (|p: T| p.sort_key()),
            decreases j,
        {
            let y = out[j - 1];
            let ghost before = out@;
            proof {
                assert(before.take(j as int)[j - 1] == before[j - 1]);
                assert(o.take(j as int)[j - 1] == o[j - 1]);
            }
            out.set(j, y);
            proof {
                assert(out@.take(j - 1) =~= o.take(j - 1));
                assert(o[j - 1] == y);
                assert forall|k: int| 0 <= k < out@.skip(j as int).len() implies out@.skip(j as int)[k]
                    == o.skip(j - 1)[k] by {
                    if k > 0 {
                        assert(out@.skip(j as int)[k] == before.skip(j + 1)[k - 1]);
                    }
                }
                assert(out@.skip(j as int) =~= o.skip(j - 1));
            }
            j = j - 1;
            assert(out@.take(j as int) =~= o.take(j as int));
        }
        proof {
            if j > 0 {
                assert(out@.take(j as int)[j - 1] == out@[j - 1]);
                assert(o.take(j as int)[j - 1] == o[j - 1]);
            }
        }
        let ghost before = out@;
        out.set(j, x);
        proof {
            assert forall|k: int| j < k < out@.len() implies out@[k] == o[k - 1] by {
                assert(out@[k] == before.skip(j + 1)[k - j - 1]);
            }
            assert forall|k: int| 0 <= k < j implies out@[k] == o[k] by {
                assert(before.take(j as int)[k] == before[k]);
            }
            lemma_insert_splice(o, x, key, j as int);
            assert(out@ =~= o.take(j as int).push(x) + o.skip(j as int));
            assert(v@.take(i + 1).drop_last() =~= v@.take(i as int));
        }
        i += 1;
    }
    assert(v@.take(v.len() as int) =~= v@);
    out
}

} // verus!
