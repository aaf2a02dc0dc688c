//! Compression of time-stamped samples into value ranges.
//!
//! Timestamps are whole microseconds and values are fixed-point integers in
//! a unit that the caller chooses (for instance millionths); tolerances are
//! given in the same unit as the values.
use vstd::prelude::*;

use crate::helpers::{
    apply_strategy, finalize_to_packed, finalized, merge_adjacent_equal_value_ranges, merge_ranges,
    split_into_windows, strategy_step, window_split, windows_view, Representation,
    RepresentationModel,
};
use crate::sorting::{sort_by_time, stable_sort};

pub mod helpers;
pub mod sorting;
pub mod strategies;

verus! {

/// A raw sample: `(timestamp_us, value)`.
pub type TSSamples = (i64, i64);

/// A packed range: `((start_us, end_us), value)`.
pub type TSPackedSamples = ((i64, i64), i64);

/// The compression strategies, applied in the order they are configured.
#[derive(Debug, Clone, Copy, PartialEq, Eq, Structural)]
pub enum TSPackStrategyType {
    TSPackSimilarValuesStrategy,
    TSPackMeanStrategy { values_compression_percent: u8 },
    TSPackXorStrategy,
    TSPackDeltaStrategy,
}

/// Configuration of one `pack` call.
#[derive(Debug, Clone)]
pub struct TSPackAttributes {
    pub strategy_types: Vec<TSPackStrategyType>,
    pub microseconds_time_window: u64,
    /// Tolerance of value comparisons, in value units.
    pub precision_epsilon: u64,
}

pub struct AttributesModel {
    pub strategy_types: Seq<TSPackStrategyType>,
    pub microseconds_time_window: u64,
    pub precision_epsilon: u64,
}

impl View for TSPackAttributes {
    type V = AttributesModel;

    open spec fn view(&self) -> AttributesModel {
        AttributesModel {
            strategy_types: self.strategy_types@,
            microseconds_time_window: self.microseconds_time_window,
            precision_epsilon: self.precision_epsilon,
        }
    }
}

#[derive(Debug, Clone, Copy, PartialEq, Eq, Structural)]
pub enum TSPackError {
    InvalidWindow,
}

/// Folds the strategies, in order, over a representation.
pub open spec fn run_strategies(
    rep: RepresentationModel,
    strategies: Seq<TSPackStrategyType>,
    eps: int,
) -> RepresentationModel
    decreases strategies.len(),
{
    if strategies.len() == 0 {
        rep
    } else {
        strategy_step(run_strategies(rep, strategies.drop_last(), eps), strategies.last(), eps)
    }
}

/// The packed ranges of one window.
pub open spec fn pack_window(w: Seq<TSSamples>, a: AttributesModel) -> Seq<TSPackedSamples> {
    finalized(run_strategies(RepresentationModel::Raw(w), a.strategy_types, a.precision_epsilon as int))
}

/// The packed ranges of all windows, concatenated in window order.
pub open spec fn pack_windows(ws: Seq<Seq<TSSamples>>, a: AttributesModel) -> Seq<TSPackedSamples>
    decreases ws.len(),
{
    if ws.len() == 0 {
        Seq::empty()
    } else {
        pack_windows(ws.drop_last(), a) + pack_window(ws.last(), a)
    }
}

/// The result of packing: samples sorted by time, split into windows, each
/// window run through the strategies, then all ranges merged.
pub open spec fn packed_result(ws: Seq<Seq<TSSamples>>, a: AttributesModel) -> Seq<TSPackedSamples> {
    merge_ranges(pack_windows(ws, a), a.precision_epsilon as int)
}

/// Every range as its start sample, followed by its end sample when the range
/// is not a single point.
pub open spec fn expand_ranges(p: Seq<TSPackedSamples>) -> Seq<TSSamples>
    decreases p.len(),
{
    if p.len() == 0 {
        Seq::empty()
    } else {
        let x = p.last();
        let tail = if x.0.0 == x.0.1 {
            seq![(x.0.0, x.1)]
        } else {
            seq![(x.0.0, x.1), (x.0.1, x.1)]
        };
        expand_ranges(p.drop_last()) + tail
    }
}

pub struct PackerModel {
    pub attributes: Option<AttributesModel>,
    pub original_samples: Seq<TSSamples>,
    pub packed_samples: Seq<TSPackedSamples>,
}

/// Packs samples and keeps the last successful call's configuration, sorted
/// input and result.
#[derive(Debug, Clone)]
pub struct TimeSeriesDataPacker {
    attributes: Option<TSPackAttributes>,
    original_samples: Vec<TSSamples>,
    packed_samples: Vec<TSPackedSamples>,
}

impl View for TimeSeriesDataPacker {
    type V = PackerModel;

    closed spec fn view(&self) -> PackerModel {
        PackerModel {
            attributes: match self.attributes {
                Some(a) => Some(a@),
                None => None,
            },
            original_samples: self.original_samples@,
            packed_samples: self.packed_samples@,
        }
    }
}

fn copy_attributes(a: &TSPackAttributes) -> (r: TSPackAttributes)
    ensures
        r@ == a@,
{
    let mut strategy_types: Vec<TSPackStrategyType> = Vec::new();
    let mut i: usize = 0;
    while i < a.strategy_types.len()
        invariant
            i <= a.strategy_types.len(),
            strategy_types@ == a.strategy_types@.take(i as int),
        decreases a.strategy_types.len() - i,
    {
        strategy_types.push(a.strategy_types[i]);
        i += 1;
        assert(strategy_types@ =~= a.strategy_types@.take(i as int));
    }
    assert(a.strategy_types@.take(i as int) =~= a.strategy_types@);
    TSPackAttributes {
        strategy_types,
        microseconds_time_window: a.microseconds_time_window,
        precision_epsilon: a.precision_epsilon,
    }
}

/// An element-for-element copy.
fn copy_vec<T: Copy>(v: &Vec<T>) -> (r: Vec<T>)
    ensures
        r@ == v@,
{
    let mut out: Vec<T> = Vec::new();
    let mut i: usize = 0;
    while i < v.len()
        invariant
            i <= v.len(),
            out@ == v@.take(i as int),
        decreases v.len() - i,
    {
        out.push(v[i]);
        i += 1;
        assert(out@ =~= v@.take(i as int));
    }
    assert(v@.take(i as int) =~= v@);
    out
}

/// Runs the strategies over one window and finalizes the result.
fn pack_one_window(window: Vec<TSSamples>, attributes: &TSPackAttributes) -> (r: Vec<TSPackedSamples>)
    ensures
        r@ == pack_window(window@, attributes@),
{
    let ghost eps = attributes.precision_epsilon as int;
    let mut rep = Representation::Raw(window);
    let mut i: usize = 0;
    while i < attributes.strategy_types.len()
        invariant
            i <= attributes.strategy_types.len(),
            eps == attributes.precision_epsilon as int,
            rep@ == run_strategies(
                RepresentationModel::Raw(window@),
                attributes.strategy_types@.take(i as int),
                eps,
            ),
        decreases attributes.strategy_types.len() - i,
    {
        rep = apply_strategy(rep, &attributes.strategy_types[i], attributes.precision_epsilon);
        proof {
            assert(attributes.strategy_types@.take(i + 1).drop_last() =~= attributes.strategy_types@.take(
                i as int,
            ));
        }
        i += 1;
    }
    assert(attributes.strategy_types@.take(i as int) =~= attributes.strategy_types@);
    finalize_to_packed(rep)
}

impl Default for TimeSeriesDataPacker {
    fn default() -> (r: Self)
        ensures
            r@.attributes.is_none(),
            r@.original_samples.len() == 0,
            r@.packed_samples.len() == 0,
    {
        TimeSeriesDataPacker {
            attributes: None,
            original_samples: Vec::new(),
            packed_samples: Vec::new(),
        }
    }
}

impl TimeSeriesDataPacker {
    /// An empty packer: no configuration, no samples, no ranges.
    pub fn new() -> (r: Self)
        ensures
            r@.attributes.is_none(),
            r@.original_samples.len() == 0,
            r@.packed_samples.len() == 0,
    {
        Self::default()
    }

    /// Packs `samples` under `attributes`. A zero time window is refused
    /// before anything else, and leaves the packer as it was.
    pub fn pack(&mut self, samples: Vec<TSSamples>, attributes: TSPackAttributes) -> (r: Result<
        Vec<TSPackedSamples>,
        TSPackError,
    >)
        ensures
            attributes.microseconds_time_window == 0 ==> r == Err::<Vec<TSPackedSamples>, TSPackError>(
                TSPackError::InvalidWindow,
            ) && final(self)@ == old(self)@,
            attributes.microseconds_time_window > 0 ==> (match r {
                Ok(p) => {
                    &&& p@ == packed_result(
                        window_split(
                            sort_by_time(samples@),
                            attributes.microseconds_time_window as int,
                        ),
                        attributes@,
                    )
                    &&& final(self)@ == (PackerModel {
                        attributes: Some(attributes@),
                        original_samples: sort_by_time(samples@),
                        packed_samples: p@,
                    })
                },
                Err(_) => false,
            }),
    {
        if attributes.microseconds_time_window == 0 {
            return Err(TSPackError::InvalidWindow);
        }
        let sorted = stable_sort(&samples);
        let windows = split_into_windows(&sorted, attributes.microseconds_time_window);
        let ghost ws = windows_view(windows@);
        let mut packed_all: Vec<TSPackedSamples> = Vec::new();
        let mut k: usize = 0;
        while k < windows.len()
            invariant
                k <= windows.len(),
                ws == windows_view(windows@),
                packed_all@ == pack_windows(ws.take(k as int), attributes@),
            decreases windows.len() - k,
        {
            let window = copy_vec(&windows[k]);
            let packed = pack_one_window(window, &attributes);
            let mut j: usize = 0;
            let ghost before = packed_all@;
            while j < packed.len()
                invariant
                    j <= packed.len(),
                    packed_all@ == before + packed@.take(j as int),
                decreases packed.len() - j,
            {
                packed_all.push(packed[j]);
                j += 1;
                assert(packed_all@ =~= before + packed@.take(j as int));
            }
            proof {
                assert(packed@.take(j as int) =~= packed@);
                assert(ws.take(k + 1).drop_last() =~= ws.take(k as int));
                assert(ws.take(k + 1).last() == ws[k as int]);
            }
            k += 1;
        }
        assert(ws.take(k as int) =~= ws);
        let merged = merge_adjacent_equal_value_ranges(packed_all, attributes.precision_epsilon);
        let result = copy_vec(&merged);
        self.attributes = Some(attributes);
        self.original_samples = sorted;
        self.packed_samples = merged;
        Ok(result)
    }

    /// The last stored configuration and the stored ranges expanded to samples:
    /// the start of each range, and its end where it differs from the start.
    pub fn unpack(&self) -> (r: (Option<TSPackAttributes>, Vec<TSSamples>))
        ensures
            match (r.0, self@.attributes) {
                (Some(a), Some(b)) => a@ == b,
                (None, None) => true,
                _ => false,
            },
            r.1@ == expand_ranges(self@.packed_samples),
    {
        let mut result: Vec<TSSamples> = Vec::new();
        let mut i: usize = 0;
        while i < self.packed_samples.len()
            invariant
                i <= self.packed_samples.len(),
                result@ == expand_ranges(self.packed_samples@.take(i as int)),
            decreases self.packed_samples.len() - i,
        {
            let ((start, end), value) = self.packed_samples[i];
            result.push((start, value));
            if end != start {
                result.push((end, value));
            }
            proof {
                assert(self.packed_samples@.take(i + 1).drop_last() =~= self.packed_samples@.take(i as int));
            }
            i += 1;
            assert(result@ =~= expand_ranges(self.packed_samples@.take(i as int)));
        }
        assert(self.packed_samples@.take(i as int) =~= self.packed_samples@);
        let attributes = match &self.attributes {
            Some(a) => Some(copy_attributes(a)),
            None => None,
        };
        (attributes, result)
    }
}

} // verus!
