use base2histogram::LogScale;
use base2histogram::LogScaleConfig;

#[test]
fn test_total_buckets_is_const() {
    let buckets: Vec<u64> = vec![0; LogScale::total_buckets(3)];
    assert_eq!(buckets.len(), 252);
    assert_eq!(LogScale::get(3).num_buckets(), 252);
}

#[test]
fn log_scale_test_calculate_bucket_group_0() {
    assert_eq!(LogScale::get(3).calculate_bucket_uncached(0), 0);
    assert_eq!(LogScale::get(3).calculate_bucket_uncached(1), 1);
    assert_eq!(LogScale::get(3).calculate_bucket_uncached(2), 2);
    assert_eq!(LogScale::get(3).calculate_bucket_uncached(3), 3);
}

#[test]
fn log_scale_test_calculate_bucket_group_1() {
    assert_eq!(LogScale::get(3).calculate_bucket_uncached(4), 4);
    assert_eq!(LogScale::get(3).calculate_bucket_uncached(5), 5);
    assert_eq!(LogScale::get(3).calculate_bucket_uncached(6), 6);
    assert_eq!(LogScale::get(3).calculate_bucket_uncached(7), 7);
}

#[test]
fn log_scale_test_calculate_bucket_group_2() {
    assert_eq!(LogScale::get(3).calculate_bucket_uncached(8), 8);
    assert_eq!(LogScale::get(3).calculate_bucket_uncached(10), 9);
    assert_eq!(LogScale::get(3).calculate_bucket_uncached(12), 10);
    assert_eq!(LogScale::get(3).calculate_bucket_uncached(14), 11);
}

#[test]
fn log_scale_test_calculate_bucket_group_3() {
    assert_eq!(LogScale::get(3).calculate_bucket_uncached(16), 12);
    assert_eq!(LogScale::get(3).calculate_bucket_uncached(20), 13);
    assert_eq!(LogScale::get(3).calculate_bucket_uncached(24), 14);
    assert_eq!(LogScale::get(3).calculate_bucket_uncached(28), 15);
}

#[test]
fn log_scale_test_calculate_bucket_group_4() {
    assert_eq!(LogScale::get(3).calculate_bucket_uncached(32), 16);
    assert_eq!(LogScale::get(3).calculate_bucket_uncached(40), 17);
    assert_eq!(LogScale::get(3).calculate_bucket_uncached(48), 18);
    assert_eq!(LogScale::get(3).calculate_bucket_uncached(56), 19);
}

#[test]
fn log_scale_test_reasonable_bucket_ranges() {
    assert_eq!(LogScale::get(3).calculate_bucket_uncached(1024), 36);
    assert_eq!(LogScale::get(3).calculate_bucket_uncached(2048), 40);
    assert_eq!(LogScale::get(3).calculate_bucket_uncached(4096), 44);

    let million = 1_048_576;
    let million_bucket = LogScale::get(3).calculate_bucket_uncached(million);
    assert!(million_bucket < 80);

    let billion = 1_073_741_824;
    let billion_bucket = LogScale::get(3).calculate_bucket_uncached(billion);
    assert!(billion_bucket < 120);
}

#[test]
fn log_scale_test_bucket_min_values_lookup_table() {
    let s = LogScale::get(3);

    // Group 0: [0, 1, 2, 3]
    assert_eq!(s.bucket_span(0).left(), 0);
    assert_eq!(s.bucket_span(1).left(), 1);
    assert_eq!(s.bucket_span(2).left(), 2);
    assert_eq!(s.bucket_span(3).left(), 3);

    // Group 1: [4, 5, 6, 7]
    assert_eq!(s.bucket_span(4).left(), 4);
    assert_eq!(s.bucket_span(5).left(), 5);
    assert_eq!(s.bucket_span(6).left(), 6);
    assert_eq!(s.bucket_span(7).left(), 7);

    // Group 2: [8, 10, 12, 14]
    assert_eq!(s.bucket_span(8).left(), 8);
    assert_eq!(s.bucket_span(9).left(), 10);
    assert_eq!(s.bucket_span(10).left(), 12);
    assert_eq!(s.bucket_span(11).left(), 14);

    // Group 3: [16, 20, 24, 28]
    assert_eq!(s.bucket_span(12).left(), 16);
    assert_eq!(s.bucket_span(13).left(), 20);
    assert_eq!(s.bucket_span(14).left(), 24);
    assert_eq!(s.bucket_span(15).left(), 28);
}

#[test]
fn log_scale_test_cached_bucket_matches_uncached() {
    let test_values: Vec<usize> =
        (0..100).chain((100..1000).step_by(10)).chain((1000..4096).step_by(100)).collect();

    for v in test_values {
        let cached = LogScale::get(3).calculate_bucket(v as u64);
        let uncached = LogScale::get(3).calculate_bucket_uncached(v as u64);
        assert_eq!(cached, uncached, "Mismatch at value {v}");
    }
}

#[test]
fn log_scale_test_cached_bucket_boundary() {
    let last_cached = (LogScale::get(3).config().small_value_cache_size() - 1) as u64;
    let first_uncached = LogScale::get(3).config().small_value_cache_size() as u64;

    assert_eq!(
        LogScale::get(3).calculate_bucket(last_cached),
        LogScale::get(3).calculate_bucket_uncached(last_cached)
    );
    assert_eq!(
        LogScale::get(3).calculate_bucket(first_uncached),
        LogScale::get(3).calculate_bucket_uncached(first_uncached)
    );
}

#[test]
fn log_scale_test_cached_bucket_large_values() {
    let large_values = [4096, 10000, 100000, 1_000_000, u64::MAX];
    for &v in &large_values {
        assert_eq!(
            LogScale::get(3).calculate_bucket(v),
            LogScale::get(3).calculate_bucket_uncached(v),
            "Mismatch at value {v}"
        );
    }
}

#[test]
fn log_scale_test_new_reduces_small_value_cache_when_bucket_exceeds_u8() {
    let log_scale = LogScale::new(7);

    assert_eq!(log_scale.small_value_cache_len(), 512);
    assert_eq!(
        log_scale.calculate_bucket(511),
        log_scale.calculate_bucket_uncached(511)
    );
    assert_eq!(
        log_scale.calculate_bucket(512),
        log_scale.calculate_bucket_uncached(512)
    );
}

#[test]
fn test_default() {
    let scale = LogScale::default();
    assert_eq!(
        scale.num_buckets(),
        LogScale::get(LogScale::DEFAULT_WIDTH).num_buckets()
    );
}

#[test]
fn test_num_buckets() {
    assert_eq!(LogScale::get(3).num_buckets(), 252);
}

#[test]
fn test_bucket_width() {
    let s = LogScale::get(3);

    // Group 0: single-value buckets, width=1
    assert_eq!(s.bucket_span(0).width(), 1);
    assert_eq!(s.bucket_span(1).width(), 1);
    assert_eq!(s.bucket_span(3).width(), 1);

    // Group 1: still width=1
    assert_eq!(s.bucket_span(4).width(), 1);
    assert_eq!(s.bucket_span(7).width(), 1);

    // Group 2: width=2
    assert_eq!(s.bucket_span(8).width(), 2);
    assert_eq!(s.bucket_span(11).width(), 2);

    // Group 3: width=4
    assert_eq!(s.bucket_span(12).width(), 4);
    assert_eq!(s.bucket_span(15).width(), 4);

    // Group 4: width=8
    assert_eq!(s.bucket_span(16).width(), 8);

    // Last bucket (251): [0b111<<61, u64::MAX]
    assert_eq!(s.bucket_span(251).width(), u64::MAX - (0b111 << 61) + 1);

    // Second-to-last bucket (250): step=2^61
    assert_eq!(s.bucket_span(250).width(), 1 << 61);
}

#[test]
fn log_scale_test_bucket_span() {
    // Group 0: [0,1)
    let s = LogScale::get(3);
    let b = s.bucket_span(0);
    assert_eq!(b.index(), 0);
    assert_eq!(b.left(), 0);
    assert_eq!(b.right(), 1);
    assert_eq!(b.width(), 1);
    assert_eq!(b.midpoint(), 0);

    // Group 2: [8,10)
    let b = s.bucket_span(8);
    assert_eq!(b.index(), 8);
    assert_eq!(b.left(), 8);
    assert_eq!(b.right(), 10);
    assert_eq!(b.width(), 2);
    assert_eq!(b.midpoint(), 9);

    // Group 3: [16,20)
    let b = s.bucket_span(12);
    assert_eq!(b.index(), 12);
    assert_eq!(b.left(), 16);
    assert_eq!(b.right(), 20);
    assert_eq!(b.width(), 4);
    assert_eq!(b.midpoint(), 18);

    // Last bucket (251)
    let b = s.bucket_span(251);
    assert_eq!(b.left(), 0b111 << 61);
    assert_eq!(b.right(), u64::MAX);
    assert!(b.is_last());
    assert_eq!(b.width(), u64::MAX - (0b111 << 61) + 1);
}

#[test]
fn test_new_accepts_supported_widths() {
    assert_eq!(LogScaleConfig::new(1).width(), 1);
    assert_eq!(LogScaleConfig::new(16).width(), 16);
}

// Additional checks of the bucket layout.

#[test]
fn validate_width_accepts_exactly_1_to_16() {
    assert!(!LogScaleConfig::validate_width(0));
    assert!(LogScaleConfig::validate_width(1));
    assert!(LogScaleConfig::validate_width(16));
    assert!(!LogScaleConfig::validate_width(17));
}

#[test]
fn config_sizes_follow_the_width() {
    let c = LogScaleConfig::new(3);
    assert_eq!((c.width(), c.group_size(), c.mask(), c.buckets(), c.small_value_cache_size()), (3, 4, 3, 252, 4096));
    let c = LogScaleConfig::new(1);
    assert_eq!((c.group_size(), c.mask(), c.buckets()), (1, 0, 65));
    let c = LogScaleConfig::new(16);
    assert_eq!((c.group_size(), c.mask(), c.buckets()), (32768, 32767, 32768 * 50));
}

#[test]
fn every_value_lies_inside_its_bucket() {
    for width in 1..=8 {
        let s = LogScale::get(width);
        let values = [0u64, 1, 2, 3, 7, 8, 9, 42, 100, 1000, 4095, 4096, 1 << 40, (1 << 40) + 12345, u64::MAX - 1, u64::MAX];
        for &v in &values {
            let b = s.calculate_bucket(v);
            assert!(b < s.num_buckets());
            let span = s.bucket_span(b);
            assert!(span.left() <= v);
            assert!(v < span.right() || span.is_last());
        }
    }
}

#[test]
fn left_boundaries_map_to_their_own_bucket_and_increase() {
    let s = LogScale::get(4);
    for i in 0..s.num_buckets() {
        assert_eq!(s.calculate_bucket(s.bucket_left(i)), i);
        if i + 1 < s.num_buckets() {
            assert!(s.bucket_left(i) < s.bucket_left(i + 1));
            assert_eq!(s.bucket_right(i), s.bucket_left(i + 1));
        }
    }
}

#[test]
fn u64_max_maps_to_the_last_bucket_for_every_width() {
    for width in 1..=16 {
        let s = LogScale::get(width);
        assert_eq!(s.calculate_bucket(u64::MAX), s.num_buckets() - 1);
        assert_eq!(LogScale::total_buckets(width), s.num_buckets());
    }
}

#[test]
fn small_value_table_length_per_width() {
    assert_eq!(LogScale::new(3).small_value_cache_len(), 4096);
    assert_eq!(LogScale::new(1).small_value_cache_len(), 4096);
    assert_eq!(LogScale::new(16).small_value_cache_len(), 256);
}

#[test]
fn the_bucket_of_42_is_17() {
    assert_eq!(LogScale::get(3).calculate_bucket(42), 17);
    assert_eq!(LogScale::get(3).bucket_left(17), 40);
    assert_eq!(LogScale::get(3).bucket_right(17), 48);
}

#[test]
fn bucket_boundaries_stay_within_the_relative_error_bound() {
    for width in [1usize, 3, 5] {
        let s = LogScale::get(width);
        let g = 1u64 << (width - 1);
        let mut values: Vec<u64> = (0..5000).collect();
        values.extend([1 << 40, (1 << 40) + 12345, u64::MAX - 1, u64::MAX]);
        for v in values {
            let b = s.bucket_span(s.calculate_bucket(v));
            if v < 2 * g {
                assert_eq!(b.left(), v);
            } else {
                assert!((v - b.left()) as u128 * (g as u128) < v as u128);
                assert!((v.abs_diff(b.midpoint()) as u128) * 2 * (g as u128) <= v as u128);
            }
        }
    }
}

#[test]
fn bucket_span_test_bucket_span() {
    let s = LogScale::get(3);

    // [0,1): width=1, midpoint=0
    let b = s.bucket_span(0);
    assert_eq!((b.index(), b.left(), b.right(), b.width(), b.midpoint()), (0, 0, 1, 1, 0));

    // [5,6): width=1, midpoint=5
    let b = s.bucket_span(5);
    assert_eq!((b.index(), b.left(), b.right(), b.width(), b.midpoint()), (5, 5, 6, 1, 5));

    // [8,10): width=2, midpoint=9
    let b = s.bucket_span(8);
    assert_eq!((b.index(), b.left(), b.right(), b.width(), b.midpoint()), (8, 8, 10, 2, 9));

    // [16,20): width=4, midpoint=18
    let b = s.bucket_span(12);
    assert_eq!((b.index(), b.left(), b.right(), b.width(), b.midpoint()), (12, 16, 20, 4, 18));

    // [32,40): width=8, midpoint=36
    let b = s.bucket_span(16);
    assert_eq!((b.index(), b.left(), b.right(), b.width(), b.midpoint()), (16, 32, 40, 8, 36));

    // Last bucket (251): right=u64::MAX. Its width counts u64::MAX itself, as
    // test_bucket_width asks; the midpoint lies between the two boundaries.
    let b = s.bucket_span(251);
    assert_eq!(b.index(), 251);
    assert_eq!(b.left(), 0b111 << 61);
    assert_eq!(b.right(), u64::MAX);
    assert_eq!(b.width(), u64::MAX - (0b111 << 61) + 1);
    assert_eq!(b.midpoint(), (0b111 << 61) + (u64::MAX - (0b111 << 61)) / 2);
}

#[test]
fn slot_limit_survives_any_mix_of_calls() {
    let mut hist: base2histogram::Histogram<u32> = base2histogram::Histogram::with_slots(3);
    for i in 0..20u32 {
        hist.record(i as u64 * 7);
        hist.record_n(1000 + i as u64, 2);
        if i % 3 == 0 {
            hist.advance(i);
        }
        assert_eq!(hist.slot_limit(), 3);
        assert!(hist.active_slot_count() <= 3);
    }
}
