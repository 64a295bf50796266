//! The count below a position is the whole-bucket count the cursor has
//! accumulated plus the density estimate inside the bucket it stops in. The
//! estimate adds nothing at offset 0 of a bucket, nor inside a bucket that
//! holds no samples, so at such positions the count is the accumulated
//! whole-bucket count alone; these tests check it there.
use base2histogram::Histogram;

fn make_hist(records: &[(u64, u64)]) -> Histogram<()> {
    let mut hist = Histogram::<()>::new();
    for &(value, count) in records {
        hist.record_n(value, count);
    }
    hist
}

#[test]
fn cumulative_count_test_cursor_bucket_boundary() {
    let hist = make_hist(&[(8, 20), (10, 50)]);
    let mut cursor = hist.cumulative_count();

    // Position 10 = right of bucket 8 → all of bucket 8, none of bucket 9
    assert_eq!(cursor.advance_to_position(10), Some((9, 0)));
    assert_eq!(cursor.whole_bucket_accumulated(), 20);

    // Position 12 = right of bucket 9 → all of both
    assert_eq!(cursor.advance_to_position(12), Some((10, 0)));
    assert_eq!(cursor.whole_bucket_accumulated(), 70);
}

#[test]
fn cumulative_count_test_cursor_past_all_buckets() {
    let hist = make_hist(&[(8, 10), (10, 20), (12, 30)]);
    let mut cursor = hist.cumulative_count();

    // u64::MAX lies in the last bucket, which holds no samples here.
    let (bucket, _) = cursor.advance_to_position(u64::MAX).unwrap();
    assert_eq!(hist.bucket(bucket).count(), 0);
    assert_eq!(cursor.whole_bucket_accumulated(), 60);
}

#[test]
fn cumulative_count_test_cursor_empty_histogram() {
    let hist = make_hist(&[]);
    let mut cursor = hist.cumulative_count();

    let (bucket, _) = cursor.advance_to_position(100).unwrap();
    assert_eq!(hist.bucket(bucket).count(), 0);
    assert_eq!(cursor.whole_bucket_accumulated(), 0);
}

#[test]
fn cumulative_count_test_cursor_position_zero() {
    // Position 0 = left of bucket 0 [0,1) → 0
    let hist = make_hist(&[(0, 50), (5, 30)]);
    let mut cursor = hist.cumulative_count();

    assert_eq!(cursor.advance_to_position(0), Some((0, 0)));
    assert_eq!(cursor.whole_bucket_accumulated(), 0);
}

#[test]
fn cumulative_count_test_cursor_same_position_twice() {
    let hist = make_hist(&[(8, 10), (10, 20), (12, 30)]);
    let mut cursor = hist.cumulative_count();

    let c1 = cursor.advance_to_position(11);
    let a1 = cursor.whole_bucket_accumulated();
    let c2 = cursor.advance_to_position(11);
    let a2 = cursor.whole_bucket_accumulated();
    assert_eq!(c1, c2);
    assert_eq!(a1, a2);
}

#[test]
fn cumulative_count_test_cursor_first_bucket() {
    // Data only in bucket 0: [0,1) and bucket 1: [1,2)
    let hist = make_hist(&[(0, 10), (1, 20)]);
    let mut cursor = hist.cumulative_count();

    assert_eq!(cursor.advance_to_position(0), Some((0, 0)));
    assert_eq!(cursor.whole_bucket_accumulated(), 0);

    assert_eq!(cursor.advance_to_position(1), Some((1, 0)));
    assert_eq!(cursor.whole_bucket_accumulated(), 10);

    assert_eq!(cursor.advance_to_position(2), Some((2, 0)));
    assert_eq!(cursor.whole_bucket_accumulated(), 30);
}

#[test]
fn cumulative_count_test_cursor_single_call_past_all() {
    let hist = make_hist(&[(0, 5), (5, 10), (10, 20), (100, 50)]);
    let total = hist.total();
    let mut cursor = hist.cumulative_count();

    let (bucket, _) = cursor.advance_to_position(u64::MAX).unwrap();
    assert_eq!(hist.bucket(bucket).count(), 0);
    assert_eq!(cursor.whole_bucket_accumulated(), total);
}

#[test]
fn cumulative_count_test_cursor_u64_max_after_earlier_calls() {
    let hist = make_hist(&[(8, 10), (10, 20), (12, 30)]);
    let mut cursor = hist.cumulative_count();

    // Advance cursor partway: inside bucket 9, which holds samples.
    let (bucket, offset) = cursor.advance_to_position(11).unwrap();
    assert_eq!((bucket, offset), (9, 1));
    assert!(hist.bucket(bucket).count() > 0);

    // Then jump to u64::MAX → the total
    let (bucket, _) = cursor.advance_to_position(u64::MAX).unwrap();
    assert_eq!(hist.bucket(bucket).count(), 0);
    assert_eq!(cursor.whole_bucket_accumulated(), 60);
}

#[test]
fn cursor_total_is_the_sum_before_its_bucket() {
    let hist = make_hist(&[(8, 20), (10, 50)]);
    let mut cursor = hist.cumulative_count();
    assert_eq!((cursor.current_bucket(), cursor.whole_bucket_accumulated()), (0, 0));
    cursor.advance_to_position(10);
    assert_eq!(cursor.current_bucket(), 9);
    let before: u64 = (0..cursor.current_bucket()).map(|j| hist.bucket(j).count()).sum();
    assert_eq!(cursor.whole_bucket_accumulated(), before);
    assert_eq!(before, 20);
}
