use base2histogram::counts_from_cumulative;
use base2histogram::Histogram;
use base2histogram::Rng;

fn make_hist(records: &[(u64, u64)]) -> Histogram<()> {
    let mut hist = Histogram::<()>::new();
    for &(value, count) in records {
        hist.record_n(value, count);
    }
    hist
}

#[test]
fn bucket_at_rank_finds_first_bucket_reaching_the_rank() {
    // Bucket 8:[8,10) c=10, bucket 9:[10,12) c=20, bucket 10:[12,14) c=30
    let hist = make_hist(&[(8, 10), (10, 20), (12, 30)]);
    assert_eq!(hist.bucket_at_rank(1), Some((8, 1)));
    assert_eq!(hist.bucket_at_rank(10), Some((8, 10)));
    assert_eq!(hist.bucket_at_rank(11), Some((9, 1)));
    assert_eq!(hist.bucket_at_rank(30), Some((9, 20)));
    assert_eq!(hist.bucket_at_rank(31), Some((10, 1)));
    assert_eq!(hist.bucket_at_rank(60), Some((10, 30)));
    assert_eq!(hist.bucket_at_rank(61), None);
}

#[test]
fn bucket_at_rank_of_empty_histogram_is_none() {
    let hist = make_hist(&[]);
    assert_eq!(hist.bucket_at_rank(1), None);
}

#[test]
fn bucket_at_position_reports_whole_count_before() {
    let hist = make_hist(&[(8, 10), (10, 20), (12, 30)]);
    let interp = hist.interpolator();
    assert_eq!(interp.num_buckets(), 252);
    assert_eq!(interp.bucket_at_position(0), (0, 0, 0));
    assert_eq!(interp.bucket_at_position(9), (0, 8, 1));
    assert_eq!(interp.bucket_at_position(10), (10, 9, 0));
    assert_eq!(interp.bucket_at_position(13), (30, 10, 1));
    assert_eq!(interp.bucket_at_position(100), (60, 22, 4));
    assert_eq!(interp.bucket_at_position(u64::MAX).0, 60);
    assert_eq!(interp.bucket_at_position(u64::MAX).1, 251);
}

#[test]
fn cursor_moves_forward_and_accumulates_whole_buckets() {
    let hist = make_hist(&[(8, 10), (10, 20), (12, 30)]);
    let mut cursor = hist.cumulative_count();
    assert_eq!(cursor.current_bucket(), 0);
    assert_eq!(cursor.whole_bucket_accumulated(), 0);

    assert_eq!(cursor.advance_to_position(0), Some((0, 0)));
    assert_eq!(cursor.advance_to_position(11), Some((9, 1)));
    assert_eq!(cursor.current_bucket(), 9);
    assert_eq!(cursor.whole_bucket_accumulated(), 10);

    // The same position again leaves the cursor where it is.
    assert_eq!(cursor.advance_to_position(11), Some((9, 1)));
    assert_eq!(cursor.whole_bucket_accumulated(), 10);

    assert_eq!(cursor.advance_to_position(12), Some((10, 0)));
    assert_eq!(cursor.whole_bucket_accumulated(), 30);

    // u64::MAX lies inside the closed last bucket.
    assert_eq!(cursor.advance_to_position(u64::MAX), Some((251, u64::MAX - (7u64 << 61))));
    assert_eq!(cursor.whole_bucket_accumulated(), 60);
}

#[test]
fn cursor_in_a_gap_counts_the_buckets_before_it() {
    let hist = make_hist(&[(5, 10), (16, 40)]);
    let mut cursor = hist.cumulative_count();
    let (bucket, offset) = cursor.advance_to_position(10).unwrap();
    assert_eq!((bucket, offset), (9, 0));
    assert_eq!(cursor.whole_bucket_accumulated(), 10);
    assert_eq!(cursor.advance_to_position(18), Some((12, 2)));
    assert_eq!(cursor.whole_bucket_accumulated(), 10);
}

#[test]
fn cursor_seeks_ranks_in_order() {
    let hist = make_hist(&[(8, 10), (10, 20), (12, 30)]);
    let mut cursor = hist.cumulative_count();
    assert_eq!(cursor.seek_rank(1), Some((8, 1)));
    assert_eq!(cursor.seek_rank(10), Some((8, 10)));
    assert_eq!(cursor.seek_rank(11), Some((9, 1)));
    assert_eq!(cursor.seek_rank(19), Some((9, 9)));
    assert_eq!(cursor.whole_bucket_accumulated(), 10);
    assert_eq!(cursor.seek_rank(47), Some((10, 17)));
    assert_eq!(cursor.seek_rank(60), Some((10, 30)));
    assert_eq!(cursor.seek_rank(61), None);
    assert_eq!(cursor.current_bucket(), 252);
}

#[test]
fn cursor_seek_rank_on_empty_histogram_is_none() {
    let hist = make_hist(&[]);
    let mut cursor = hist.cumulative_count();
    assert_eq!(cursor.seek_rank(1), None);
}

#[test]
fn cursor_seek_rank_skips_empty_buckets() {
    let hist = make_hist(&[(5, 10), (16, 40)]);
    let mut cursor = hist.cumulative_count();
    assert_eq!(cursor.seek_rank(10), Some((5, 10)));
    assert_eq!(cursor.seek_rank(11), Some((12, 1)));
    assert_eq!(cursor.seek_rank(50), Some((12, 40)));
}

#[test]
fn counts_from_cumulative_takes_differences() {
    assert_eq!(counts_from_cumulative(&[]), Vec::<u64>::new());
    assert_eq!(counts_from_cumulative(&[3, 3, 7, 10]), vec![3, 0, 4, 3]);
    let rebuilt = counts_from_cumulative(&[0, 5, 5, 9]);
    assert_eq!(rebuilt.iter().sum::<u64>(), 9);
}

#[test]
fn rng_follows_xorshift64() {
    let mut rng = Rng::new(1);
    let mut x: u64 = 1;
    for _ in 0..100 {
        x ^= x << 13;
        x ^= x >> 7;
        x ^= x << 17;
        let v = rng.next_u64();
        assert_eq!(v, x);
        assert_ne!(v, 0);
    }
}

#[test]
fn sample_sequences_have_the_requested_shape() {
    assert_eq!(base2histogram::rng::sequential(4), vec![1, 2, 3, 4]);
    let u = base2histogram::rng::uniform(1000);
    assert_eq!(u.len(), 1000);
    assert!(u.iter().all(|&v| (1..=1_000_000).contains(&v)));
    let mut rng = Rng::new(42);
    assert_eq!(u[0], rng.next_u64() % 1_000_000 + 1);
}

#[test]
fn cursor_agrees_with_a_fresh_scan_for_increasing_positions() {
    let hist = make_hist(&[(8, 10), (10, 20), (12, 30), (5, 3), (1000, 7)]);
    let mut cursor = hist.cumulative_count();
    for pos in [0, 5, 8, 9, 10, 11, 12, 13, 14, 100, 1000, 5000, u64::MAX] {
        let (whole, bucket, offset) = hist.interpolator().bucket_at_position(pos);
        assert_eq!(cursor.advance_to_position(pos), Some((bucket, offset)));
        assert_eq!(cursor.whole_bucket_accumulated() as u128, whole);
    }
}

#[test]
fn cursor_agrees_with_a_fresh_scan_for_increasing_ranks() {
    let hist = make_hist(&[(8, 10), (10, 20), (12, 30), (5, 3), (1000, 7)]);
    let mut cursor = hist.cumulative_count();
    for rank in [1, 3, 4, 13, 14, 33, 34, 63, 64, 70] {
        assert_eq!(cursor.seek_rank(rank), hist.bucket_at_rank(rank));
    }
    assert_eq!(cursor.seek_rank(71), None);
}
