use base2histogram::Histogram;
use base2histogram::PercentileStats;

#[test]
fn test_display_empty() {
    let hist: Histogram = Histogram::new();
    assert_eq!(hist.display_buckets().to_string(), "");
}

#[test]
fn test_display_single_bucket() {
    let mut hist: Histogram = Histogram::new();
    hist.record_n(10, 5);
    assert_eq!(hist.display_buckets().to_string(), "b9[10,12)=5");
}

#[test]
fn test_display_multiple_buckets() {
    let mut hist: Histogram = Histogram::new();
    hist.record_n(5, 10);
    hist.record_n(100, 20);
    assert_eq!(hist.display_buckets().to_string(), "b5[5,6)=10\nb22[96,112)=20");
}

#[test]
fn test_display_skips_empty_buckets() {
    let mut hist: Histogram = Histogram::new();
    hist.record_n(0, 3);
    hist.record_n(1000, 7);
    assert_eq!(hist.display_buckets().to_string(), "b0[0,1)=3\nb35[896,1024)=7");
}

#[test]
fn percentile_stats_text() {
    let stats = PercentileStats { samples: 100, p0_1: 5, p1: 5, p5: 5, p10: 5, p50: 22, p90: 88, p99: 95, p99_9: 95 };
    assert_eq!(
        stats.to_string(),
        "[samples: 100, P0.1: 5, P1: 5, P5: 5, P10: 5, P50: 22, P90: 88, P99: 95, P99.9: 95]"
    );
}
