use base2histogram::Histogram;
use base2histogram::LogScale;
use base2histogram::LogScaleConfig;
use base2histogram::Slot;

fn scale() -> LogScale {
    LogScale::get(3)
}

#[test]
fn test_slot_clear() {
    let mut slot: Slot<String> = Slot::new(10);
    slot.buckets[0] = 5;
    slot.buckets[5] = 10;
    slot.data = Some("test".to_string());

    slot.clear();

    assert!(slot.buckets.iter().all(|&c| c == 0));
    assert_eq!(slot.data, None);
}

#[test]
fn test_histogram_default() {
    let hist: Histogram = Histogram::default();
    assert_eq!(hist.slot_limit(), 1);
    assert_eq!(hist.active_slot_count(), 0);
    assert_eq!(hist.total(), 0);
}

#[test]
fn test_record_and_total() {
    let mut hist: Histogram = Histogram::new();

    hist.record(1);
    hist.record(5);
    hist.record(10);
    hist.record(100);

    assert_eq!(hist.total(), 4);
    assert_eq!(hist.aggregate_buckets[1], 1);
    assert_eq!(hist.aggregate_buckets[5], 1);
    assert_eq!(hist.aggregate_buckets[scale().calculate_bucket(10)], 1);
    assert_eq!(hist.aggregate_buckets[scale().calculate_bucket(100)], 1);
}

#[test]
fn test_record_same_bucket() {
    let mut hist: Histogram = Histogram::new();

    hist.record(8);
    hist.record(8);
    hist.record(8);

    assert_eq!(hist.total(), 3);
    assert_eq!(hist.aggregate_buckets[8], 3);
}

#[test]
fn test_record_n() {
    let mut hist: Histogram = Histogram::new();

    hist.record_n(10, 5);
    hist.record_n(100, 3);

    assert_eq!(hist.total(), 8);
    assert_eq!(hist.aggregate_buckets[scale().calculate_bucket(10)], 5);
    assert_eq!(hist.aggregate_buckets[scale().calculate_bucket(100)], 3);
}

#[test]
fn test_record_n_equivalent_to_record() {
    let mut hist_n: Histogram = Histogram::new();
    let mut hist_single: Histogram = Histogram::new();

    hist_n.record_n(42, 4);
    for _ in 0..4 {
        hist_single.record(42);
    }

    assert_eq!(hist_n.total(), hist_single.total());
    let bucket = scale().calculate_bucket(42);
    assert_eq!(hist_n.aggregate_buckets[bucket], hist_single.aggregate_buckets[bucket]);
}

#[test]
fn test_u64_max_coverage() {
    let max_bucket = scale().calculate_bucket_uncached(u64::MAX);
    assert_eq!(max_bucket, 251, "u64::MAX should map to bucket 251");
    assert_eq!(LogScaleConfig::new(3).buckets(), 252, "Should need exactly 252 buckets");

    let mut hist: Histogram = Histogram::new();
    assert_eq!(hist.num_buckets(), 252);
    hist.record(u64::MAX);
    assert_eq!(hist.aggregate_buckets[251], 1);
    assert_eq!(hist.total(), 1);
}

#[test]
fn test_with_slots_creates_correct_slot_limit() {
    let hist: Histogram<u64> = Histogram::with_slots(4);
    assert_eq!(hist.slot_limit(), 4);
    assert_eq!(hist.active_slot_count(), 1);
}

#[test]
fn test_advance_single_slot() {
    let mut hist: Histogram<u64> = Histogram::new();
    hist.record(42);
    assert_eq!(hist.total(), 1);
    assert_eq!(hist.advance(10), 0);
    assert_eq!(hist.active_slot_count(), 0);
    assert_eq!(hist.total(), 0);
}

#[test]
fn test_advance_multi_slot_not_full() {
    let mut hist: Histogram<u64> = Histogram::with_slots(4);

    hist.record(100);
    assert_eq!(hist.active_slot_count(), 1);
    assert_eq!(hist.total(), 1);

    assert_eq!(hist.advance(10), 2);
    hist.record(200);
    assert_eq!(hist.active_slot_count(), 2);
    assert_eq!(hist.total(), 2);
    assert_eq!(hist.slots.current_data, Some(10));

    assert_eq!(hist.advance(20), 3);
    assert_eq!(hist.active_slot_count(), 3);

    assert_eq!(hist.advance(30), 4);
    assert_eq!(hist.active_slot_count(), 4);
}

#[test]
fn test_advance_evicts_oldest() {
    let mut hist: Histogram<u64> = Histogram::with_slots(4);

    hist.record(100);
    hist.advance(10);
    hist.record(200);
    hist.advance(20);
    hist.advance(30);

    assert_eq!(hist.active_slot_count(), 4);
    assert_eq!(hist.total(), 2);

    assert_eq!(hist.advance(40), 4);
    assert_eq!(hist.active_slot_count(), 4);
    assert_eq!(hist.total(), 1);

    assert_eq!(hist.slots.slots.front().unwrap().data, Some(10));
    assert_eq!(hist.slots.current_data, Some(40));
}

#[test]
fn test_advance_slot_limit_stays_constant() {
    let mut hist: Histogram<u64> = Histogram::with_slots(3);
    assert_eq!(hist.slot_limit(), 3);

    hist.advance(1);
    hist.advance(2);
    assert_eq!(hist.active_slot_count(), 3);
    assert_eq!(hist.slot_limit(), 3);

    for i in 3..10 {
        hist.advance(i);
        assert_eq!(hist.slot_limit(), 3, "slot limit grew unexpectedly at iteration {i}");
        assert_eq!(hist.active_slot_count(), 3);
    }

    assert_eq!(hist.slots.slots.front().unwrap().data, Some(7));
    assert_eq!(hist.slots.slots.get(1).unwrap().data, Some(8));
    assert_eq!(hist.slots.current_data, Some(9));
}

#[test]
fn test_advance_uses_slot_limit_instead_of_vecdeque_capacity() {
    let mut hist: Histogram<u64> = Histogram::with_slots(2);

    hist.slots.slots.reserve(16);

    assert!(hist.slots.slots.capacity() > hist.slot_limit());

    hist.advance(1);
    assert_eq!(hist.active_slot_count(), 2);

    hist.advance(2);
    assert_eq!(hist.active_slot_count(), 2);
    assert_eq!(hist.slots.slots.front().unwrap().data, Some(1));
    assert_eq!(hist.slots.current_data, Some(2));
}

#[test]
fn test_slot_data_access() {
    let mut hist: Histogram<String> = Histogram::with_slots(3);

    assert_eq!(hist.slots.current_data, None);

    hist.advance("first".to_string());
    assert_eq!(hist.active_slot_count(), 2);
    assert_eq!(hist.slots.current_data, Some("first".to_string()));

    hist.advance("second".to_string());
    assert_eq!(hist.active_slot_count(), 3);
    assert_eq!(hist.slots.current_data, Some("second".to_string()));
}

fn assert_consistent(h: &Histogram<u64>) {
    let n = h.active_slot_count();
    if n <= 1 {
        return;
    }
    for bucket_idx in 0..h.num_buckets() {
        let hist_sum: u64 = h.slots.slots.iter().map(|s| s.buckets[bucket_idx]).sum();
        assert!(
            h.aggregate_buckets[bucket_idx] >= hist_sum,
            "aggregate[{bucket_idx}]={} < historical_sum={hist_sum}",
            h.aggregate_buckets[bucket_idx]
        );
    }
}

#[test]
fn test_aggregate_buckets_consistency() {
    let mut hist: Histogram<u64> = Histogram::with_slots(3);

    for v in [1, 10, 100, 1000] {
        hist.record(v);
    }
    assert_consistent(&hist);
    assert_eq!(hist.total(), 4);

    hist.advance(1);
    for v in [2, 20, 200] {
        hist.record(v);
    }
    assert_consistent(&hist);
    assert_eq!(hist.total(), 7);

    hist.advance(2);
    hist.record(3);
    assert_eq!(hist.active_slot_count(), 3);
    assert_consistent(&hist);
    assert_eq!(hist.total(), 8);

    hist.advance(3);
    assert_eq!(hist.active_slot_count(), 3);
    assert_consistent(&hist);
    assert_eq!(hist.total(), 4);
}

#[test]
fn with_slots_zero_keeps_no_history() {
    let mut hist0: Histogram = Histogram::with_slots(0);
    let mut hist1: Histogram = Histogram::with_slots(1);
    assert_eq!(hist0.active_slot_count(), 0);
    assert_eq!(hist1.active_slot_count(), 0);

    hist0.record(100);
    hist1.record(100);
    assert_eq!(hist0.total(), hist1.total());
    assert_eq!(hist0.advance(()), 0);
    assert_eq!(hist0.total(), 0);
}

#[test]
fn advance_at_capacity_removes_exactly_the_oldest_period() {
    let mut hist: Histogram<u64> = Histogram::with_slots(2);
    hist.record_n(5, 7);
    hist.advance(1);
    hist.record_n(5, 2);
    hist.record_n(1000, 1);
    assert_eq!(hist.total(), 10);
    // The stored period holds the 7 samples recorded before the first advance.
    assert_eq!(hist.slots.slots.front().unwrap().buckets[5], 7);

    hist.advance(2);
    assert_eq!(hist.total(), 3);
    assert_eq!(hist.aggregate_buckets[5], 2);
    assert_eq!(hist.slots.slots.len(), 1);
    assert_eq!(hist.slots.slots.front().unwrap().data, Some(1));
}

#[test]
fn every_width_records_edge_values_and_evicts() {
    for width in 1..=10usize {
        assert_eq!(LogScale::get(width).num_buckets(), LogScaleConfig::new(width).buckets());

        let mut hist = Histogram::<()>::with_log_scale(width, 2);
        hist.record(0);
        hist.record(1);
        hist.record(u64::MAX);
        assert_eq!(hist.total(), 3);
        assert_eq!(hist.aggregate_buckets[hist.num_buckets() - 1], 1);

        hist.advance(());
        hist.record(1000);
        assert_eq!(hist.total(), 4);

        hist.advance(());
        assert_eq!(hist.total(), 1);
    }
}

#[test]
fn bucket_view_reports_count_and_range() {
    let mut hist: Histogram = Histogram::new();
    hist.record_n(100, 3);
    let i = scale().calculate_bucket(100);
    let b = hist.bucket(i);
    assert_eq!(b.index(), i);
    assert_eq!(b.count(), 3);
    assert_eq!((b.left(), b.right()), (96, 112));
}

#[test]
fn sliding_window_drops_the_oldest_period() {
    let mut hist = Histogram::<&'static str>::with_slots(2);
    hist.record_n(10, 2);
    hist.advance("warm");
    hist.record_n(100, 3);

    assert_eq!(hist.total(), 5);

    hist.advance("steady");
    assert_eq!(hist.total(), 3);
}

#[test]
fn basic_usage_counts_every_sample() {
    let mut hist = Histogram::<()>::new();
    hist.record(5);
    hist.record(8);
    hist.record(13);
    hist.record_n(21, 3);
    assert_eq!(hist.total(), 6);
}

#[test]
fn check_wf_detects_slots_above_the_aggregate() {
    let mut hist: Histogram<u64> = Histogram::with_slots(3);
    hist.record_n(5, 4);
    hist.advance(1);
    assert!(hist.check_wf());
    hist.aggregate_buckets[5] = 3;
    assert!(!hist.check_wf());
    hist.aggregate_buckets[5] = 4;
    assert!(hist.check_wf());
    hist.aggregate_buckets.pop();
    assert!(!hist.check_wf());
}

#[test]
fn one_scale_per_width() {
    for w in 1..=16usize {
        assert_eq!(LogScale::new(w), LogScale::get(w));
        assert_eq!(*LogScale::new(w).config(), LogScaleConfig::new(w));
        assert_eq!(LogScale::new(w).clone(), LogScale::new(w));
    }
    assert_eq!(LogScale::default(), LogScale::new(3));
}
