use time_series_data_packer_rs::strategies::mean_based_compression::{mean_pack, mean_refine_packs};
use time_series_data_packer_rs::{
    TSPackAttributes, TSPackError, TSPackStrategyType, TSPackedSamples, TSSamples,
    TimeSeriesDataPacker,
};

// Timestamps are microseconds; values are millionths unless a test says otherwise.

fn real_measurements() -> Vec<TSSamples> {
    vec![
        (1_431_142, 26_500_000),
        (1_513_428, 26_500_000),
        (1_650_571, 26_500_000),
        (1_979_714, 26_500_000),
        (2_253_999, 26_500_000),
        (2_583_142, 26_500_000),
        (2_802_571, 26_500_000),
        (3_021_999, 26_500_000),
        (3_131_714, 26_500_000),
        (3_323_714, 26_500_000),
        (3_488_285, 26_500_000),
        (3_625_428, 26_500_000),
        (3_735_142, 26_500_000),
        (3_872_285, 26_500_000),
        (3_981_999, 26_500_000),
        (4_119_142, 26_500_000),
        (4_256_285, 26_500_000),
        (4_338_571, 26_500_000),
        (4_448_285, 26_500_000),
        (4_530_571, 26_500_000),
        (4_612_857, 26_500_000),
        (4_695_142, 26_500_000),
        (4_777_428, 26_500_000),
        (4_832_285, 26_500_000),
        (4_859_714, 26_800_000),
        (4_887_142, 26_800_000),
        (4_941_999, 26_800_000),
        (4_996_857, 26_800_000),
        (5_024_285, 26_800_000),
        (5_079_142, 27_100_000),
        (5_106_571, 27_100_000),
        (5_133_999, 27_100_000),
        (5_188_857, 27_100_000),
        (5_216_285, 27_100_000),
        (5_243_714, 27_100_000),
        (5_271_142, 27_100_000),
        (5_325_999, 27_100_000),
        (5_353_428, 27_100_000),
        (5_408_285, 27_100_000),
        (5_435_714, 27_100_000),
        (5_490_571, 27_100_000),
        (5_517_999, 27_100_000),
        (5_600_285, 27_100_000),
        (5_709_999, 27_100_000),
        (5_792_285, 27_400_000),
        (5_819_714, 27_800_000),
        (5_874_571, 27_400_000),
        (5_956_857, 27_400_000),
        (6_093_999, 27_400_000),
        (6_231_142, 27_400_000),
        (6_368_285, 27_400_000),
        (6_477_999, 27_800_000),
        (6_532_857, 27_800_000),
        (6_642_571, 28_400_000),
        (6_724_857, 28_700_000),
    ]
}

fn attrs(strategy_types: Vec<TSPackStrategyType>, precision_epsilon: u64) -> TSPackAttributes {
    TSPackAttributes {
        strategy_types,
        microseconds_time_window: 1_000_000,
        precision_epsilon,
    }
}

#[test]
fn test_similar_values_strategy_check_pack_and_unpack() {
    let samples: Vec<TSSamples> = vec![
        (0, 100_000_000),
        (100_000, 100_000_000),
        (200_000, 100_000_000),
        (300_000, 101_000_000),
        (400_000, 101_000_000),
        (500_000, 100_000_000),
    ];

    let mut packer = TimeSeriesDataPacker::new();
    let a = attrs(vec![TSPackStrategyType::TSPackSimilarValuesStrategy], 0);

    let packed = packer.pack(samples.clone(), a).unwrap();
    assert_eq!(packed.len(), 3);
    assert_eq!(packed[0], ((0, 200_000), 100_000_000));
    assert_eq!(packed[1], ((300_000, 400_000), 101_000_000));
    assert_eq!(packed[2], ((500_000, 500_000), 100_000_000));

    let (_attrs, unpacked) = packer.unpack();
    assert_eq!(unpacked.len(), 5);
    assert_eq!(unpacked[0], (0, 100_000_000));
    // the interior sample at 100_000 is not recovered
    assert_eq!(unpacked[1], (200_000, 100_000_000));
    assert_eq!(unpacked[2], (300_000, 101_000_000));
    assert_eq!(unpacked[3], (400_000, 101_000_000));
    assert_eq!(unpacked[4], (500_000, 100_000_000));
}

#[test]
fn test_similar_values_strategy_on_real_measurements_example() {
    let samples = real_measurements();

    let mut packer = TimeSeriesDataPacker::new();
    let a = attrs(vec![TSPackStrategyType::TSPackSimilarValuesStrategy], 0);

    let packed = packer.pack(samples.clone(), a).unwrap();

    // ranges of neighbouring windows do not touch, so equal values stay apart
    assert_eq!(packed.len(), 13);
    assert_eq!(packed[0], ((1_431_142, 2_253_999), 26_500_000));
    assert_eq!(packed[1], ((2_583_142, 3_488_285), 26_500_000));
    assert_eq!(packed[2], ((3_625_428, 4_612_857), 26_500_000));
    assert_eq!(packed[3], ((4_695_142, 4_832_285), 26_500_000));
    assert_eq!(packed[4], ((4_859_714, 5_024_285), 26_800_000));
    assert_eq!(packed[5], ((5_079_142, 5_600_285), 27_100_000));
    assert_eq!(packed[6], ((5_709_999, 5_709_999), 27_100_000));
    assert_eq!(packed[7], ((5_792_285, 5_792_285), 27_400_000));
    assert_eq!(packed[8], ((5_819_714, 5_819_714), 27_800_000));
    assert_eq!(packed[9], ((5_874_571, 6_368_285), 27_400_000));
    assert_eq!(packed[10], ((6_477_999, 6_532_857), 27_800_000));
    assert_eq!(packed[11], ((6_642_571, 6_642_571), 28_400_000));
    assert_eq!(packed[12], ((6_724_857, 6_724_857), 28_700_000));
}

#[test]
fn test_mean_strategy_all_within_5_percents_tolerance() {
    // values around 100 within +/- 5% (95..105)
    let samples: Vec<TSSamples> = vec![
        (0, 100_000_000),
        (50_000, 100_000_000),
        (100_000, 102_000_000),
        (150_000, 98_000_000),
        (200_000, 100_000_000),
        (250_000, 99_000_000),
    ];

    let mut packer = TimeSeriesDataPacker::new();
    let a = attrs(
        vec![TSPackStrategyType::TSPackMeanStrategy { values_compression_percent: 5 }],
        0,
    );

    let packed = packer.pack(samples.clone(), a).unwrap();

    // a single range valued at the mean, 99.8333..., rounded down
    assert_eq!(packed.len(), 1);
    let ((start, end), val) = packed[0];
    assert_eq!(start, 0);
    assert_eq!(end, 250_000);
    assert!((val - 99_833_333).abs() < 1);
}

#[test]
fn test_mean_strategy_all_within_5_percents_tolerance_on_real_measurements_example() {
    let samples = real_measurements();

    let mut packer = TimeSeriesDataPacker::new();
    let a = attrs(
        vec![TSPackStrategyType::TSPackMeanStrategy { values_compression_percent: 5 }],
        0,
    );

    let packed = packer.pack(samples.clone(), a).unwrap();

    // one range per window: ranges of neighbouring windows do not touch
    assert_eq!(packed.len(), 6);
    assert_eq!(packed[0], ((1_431_142, 2_253_999), 26_500_000));
    assert_eq!(packed[1], ((2_583_142, 3_488_285), 26_500_000));
    assert_eq!(packed[2], ((3_625_428, 4_612_857), 26_500_000));
    assert_eq!(packed[3], ((4_695_142, 5_600_285), 26_950_000));
    // 27.5727... rounded down
    assert_eq!(packed[4], ((5_709_999, 6_642_571), 27_572_727));
    assert_eq!(packed[5], ((6_724_857, 6_724_857), 28_700_000));
}

#[test]
fn test_invalid_window_error_in_data_packer_pack() {
    let samples: Vec<TSSamples> = vec![];

    let mut packer = TimeSeriesDataPacker::new();
    let a = TSPackAttributes {
        strategy_types: vec![TSPackStrategyType::TSPackSimilarValuesStrategy],
        microseconds_time_window: 0,
        precision_epsilon: 0,
    };

    let result = packer.pack(samples.clone(), a);

    assert_eq!(result, Err(TSPackError::InvalidWindow));
}

#[test]
fn failed_pack_keeps_the_previous_result() {
    let samples: Vec<TSSamples> = vec![(0, 5), (10, 5), (20, 7)];
    let mut packer = TimeSeriesDataPacker::new();
    let good = attrs(vec![TSPackStrategyType::TSPackSimilarValuesStrategy], 0);
    let packed = packer.pack(samples, good).unwrap();
    assert_eq!(packed, vec![((0, 10), 5), ((20, 20), 7)]);

    let bad = TSPackAttributes {
        strategy_types: vec![TSPackStrategyType::TSPackXorStrategy],
        microseconds_time_window: 0,
        precision_epsilon: 3,
    };
    assert_eq!(packer.pack(vec![(1, 1)], bad), Err(TSPackError::InvalidWindow));

    let (stored, unpacked) = packer.unpack();
    let stored = stored.unwrap();
    assert_eq!(stored.strategy_types, vec![TSPackStrategyType::TSPackSimilarValuesStrategy]);
    assert_eq!(stored.microseconds_time_window, 1_000_000);
    assert_eq!(stored.precision_epsilon, 0);
    assert_eq!(unpacked, vec![(0, 5), (10, 5), (20, 7)]);
}

#[test]
fn new_packer_unpacks_to_nothing() {
    let packer = TimeSeriesDataPacker::new();
    let (stored, unpacked) = packer.unpack();
    assert!(stored.is_none());
    assert!(unpacked.is_empty());
}

#[test]
fn empty_input_packs_to_nothing() {
    let mut packer = TimeSeriesDataPacker::new();
    let packed = packer
        .pack(vec![], attrs(vec![TSPackStrategyType::TSPackSimilarValuesStrategy], 0))
        .unwrap();
    assert!(packed.is_empty());
}

#[test]
fn pack_sorts_unsorted_samples() {
    let samples: Vec<TSSamples> = vec![(300, 2), (100, 1), (200, 1)];
    let mut packer = TimeSeriesDataPacker::new();
    let packed = packer
        .pack(samples, attrs(vec![TSPackStrategyType::TSPackSimilarValuesStrategy], 0))
        .unwrap();
    assert_eq!(packed, vec![((100, 200), 1), ((300, 300), 2)]);
}

#[test]
fn pack_without_strategies_gives_point_ranges() {
    let samples: Vec<TSSamples> = vec![(0, 1), (10, 2), (20, 3)];
    let mut packer = TimeSeriesDataPacker::new();
    let packed = packer.pack(samples, attrs(vec![], 0)).unwrap();
    assert_eq!(packed, vec![((0, 0), 1), ((10, 10), 2), ((20, 20), 3)]);
}

#[test]
fn windows_with_equal_values_stay_apart_across_a_gap() {
    // window of 10 us: samples 0..10 and 50..55 form two windows
    let samples: Vec<TSSamples> = vec![(0, 4), (10, 4), (50, 4), (55, 9)];
    let mut packer = TimeSeriesDataPacker::new();
    let a = TSPackAttributes {
        strategy_types: vec![TSPackStrategyType::TSPackSimilarValuesStrategy],
        microseconds_time_window: 10,
        precision_epsilon: 0,
    };
    let packed = packer.pack(samples, a).unwrap();
    assert_eq!(packed, vec![((0, 10), 4), ((50, 50), 4), ((55, 55), 9)]);
}

#[test]
fn mean_pack_emits_out_of_band_samples_alone() {
    // mean 100, band at 10% is [90, 110]; 130 and 70 fall outside
    let samples: Vec<TSSamples> = vec![(0, 100), (1, 100), (2, 130), (3, 100), (4, 70), (5, 100)];
    let packed = mean_pack(&samples, 10, 0);
    assert_eq!(
        packed,
        vec![((0, 1), 100), ((2, 2), 130), ((3, 3), 100), ((4, 4), 70), ((5, 5), 100)]
    );
}

#[test]
fn mean_pack_of_nothing_is_empty() {
    assert!(mean_pack(&vec![], 5, 0).is_empty());
}

#[test]
fn mean_pack_rounds_the_mean_down() {
    // mean of -1 and -2 is -1.5, rounded down to -2
    let packed = mean_pack(&vec![(0, -1), (1, -2)], 0, 0);
    assert_eq!(packed, vec![((0, 0), -1), ((1, 1), -2)]);
    let packed = mean_pack(&vec![(0, 1), (1, 2)], 100, 0);
    assert_eq!(packed, vec![((0, 1), 1)]);
}

#[test]
fn mean_refine_drifts_with_the_running_value() {
    // 105 is within 5% of 100 and joins it; 110 is measured against 100 again
    let packs: Vec<TSPackedSamples> =
        vec![((0, 1), 100), ((2, 3), 105), ((4, 5), 110), ((6, 7), 112)];
    let refined = mean_refine_packs(packs, 5);
    assert_eq!(refined, vec![((0, 3), 100), ((4, 7), 110)]);
}

#[test]
fn mean_then_similar_values_pipeline() {
    let samples: Vec<TSSamples> = vec![(0, 100), (1, 100), (2, 200), (3, 200)];
    let mut packer = TimeSeriesDataPacker::new();
    let a = attrs(
        vec![
            TSPackStrategyType::TSPackSimilarValuesStrategy,
            TSPackStrategyType::TSPackMeanStrategy { values_compression_percent: 100 },
        ],
        0,
    );
    // similar values gives ((0,1),100), ((2,3),200); 200 lies within 100% of 100
    let packed = packer.pack(samples, a).unwrap();
    assert_eq!(packed, vec![((0, 3), 100)]);
}
