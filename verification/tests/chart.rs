use base2histogram::compact_range_width;
use base2histogram::digit_count;
use base2histogram::AsciiChart;
use base2histogram::Histogram;
use base2histogram::PercentileStats;

/// Percentile statistics as the interpolating estimator reports them; the
/// chart renders whatever statistics it is handed.
fn stats(samples: u64, p50: u64, p90: u64, p99: u64) -> PercentileStats {
    PercentileStats { samples, p0_1: 0, p1: 0, p5: 0, p10: 0, p50, p90, p99, p99_9: 0 }
}

#[test]
fn test_digit_count() {
    assert_eq!(digit_count(0), 1);
    assert_eq!(digit_count(1), 1);
    assert_eq!(digit_count(9), 1);
    assert_eq!(digit_count(10), 2);
    assert_eq!(digit_count(99), 2);
    assert_eq!(digit_count(100), 3);
    assert_eq!(digit_count(999), 3);
    assert_eq!(digit_count(u64::MAX), 20);
}

#[test]
fn test_empty_chart() {
    let chart: AsciiChart = AsciiChart::new();
    assert_eq!(chart.compact().to_string(), "");
    assert_eq!(chart.detailed().render(&[]), "");
}

#[test]
fn test_empty_histogram() {
    let hist = Histogram::<()>::new();
    let chart = AsciiChart::new().add("test", hist.clone());
    assert_eq!(chart.compact().to_string(), "");
    assert_eq!(chart.detailed().render(&[stats(0, 0, 0, 0)]), "");
}

#[test]
fn test_single_compact() {
    let mut hist = Histogram::<()>::new();
    hist.record_n(5, 10);
    hist.record_n(100, 3);

    let chart = AsciiChart::new().add("test", hist.clone()).bar_width(20);
    let expect = ["   [5,6)  ████████████████████ 10", "[96,112)  ██████ 3"].join("\n");
    assert_eq!(chart.compact().to_string(), expect);
}

#[test]
fn test_stacked_compact() {
    let mut hist_a = Histogram::<()>::new();
    let mut hist_b = Histogram::<()>::new();
    hist_a.record_n(5, 10);
    hist_b.record_n(5, 5);

    let chart = AsciiChart::new().add("a", hist_a).add("b", hist_b).bar_width(20);
    assert_eq!(chart.compact().to_string(), "[5,6)  █████████████▒▒▒▒▒▒▒  a:10 b:5");
}

#[test]
fn test_bar_width_setting() {
    let mut hist = Histogram::<()>::new();
    hist.record_n(5, 10);

    let chart_narrow = AsciiChart::new().add("test", hist.clone()).bar_width(10);
    assert_eq!(chart_narrow.compact().to_string(), "[5,6)  ██████████ 10");

    let chart_wide = AsciiChart::new().add("test", hist.clone()).bar_width(50);
    assert_eq!(
        chart_wide.compact().to_string(),
        "[5,6)  ██████████████████████████████████████████████████ 10"
    );
}

#[test]
fn test_single_detailed() {
    let mut hist = Histogram::<()>::new();
    hist.record_n(5, 10);
    hist.record_n(100, 3);

    let chart = AsciiChart::new().add("test", hist).bar_width(20);
    let expect = [
        "    range | count",
        "[ 5,   6) | ████████████████████ 10",
        "[96, 112) | ██████ 3",
        "total: 13  P50: 5  P90: 106  P99: 111",
    ]
    .join("\n");
    assert_eq!(chart.detailed().render(&[stats(13, 5, 106, 111)]), expect);
}

#[test]
fn test_stacked_detailed() {
    let mut hist_a = Histogram::<()>::new();
    let mut hist_b = Histogram::<()>::new();
    hist_a.record_n(5, 10);
    hist_b.record_n(5, 5);
    hist_b.record_n(100, 3);

    let chart = AsciiChart::new().add("a", hist_a).add("b", hist_b).bar_width(20);
    let expect = [
        "    range | █ a ▒ b",
        "[ 5,   6) | █████████████▒▒▒▒▒▒▒  10 + 5",
        "[96, 112) | ▒▒▒▒  0 + 3",
        "█ a  total: 10  P50: 5  P90: 5  P99: 5",
        "▒ b  total: 8  P50: 5  P90: 111  P99: 111",
    ]
    .join("\n");
    let rendered = chart.detailed().render(&[stats(10, 5, 5, 5), stats(8, 5, 111, 111)]);
    assert_eq!(rendered, expect);
}

#[test]
fn compact_range_width_counts_brackets_and_digits() {
    assert_eq!(compact_range_width(5, 6), "[5,6)".len());
    assert_eq!(compact_range_width(96, 112), "[96,112)".len());
    assert_eq!(compact_range_width(0, u64::MAX), 24);
}

#[test]
fn from_series_keeps_the_given_order() {
    let mut a = Histogram::<()>::new();
    let mut b = Histogram::<()>::new();
    a.record_n(5, 1);
    b.record_n(5, 3);
    let chart = AsciiChart::from_series(vec![("a".to_string(), a), ("b".to_string(), b)]).bar_width(4);
    assert_eq!(chart.compact().to_string(), "[5,6)  █▒▒▒  a:1 b:3");
    assert_eq!(chart.non_empty_indices(), vec![5]);
    assert_eq!(chart.max_stacked_count(&[5]), 4);
}

#[test]
fn bars_round_half_up() {
    let mut hist = Histogram::<()>::new();
    hist.record_n(5, 4);
    hist.record_n(6, 1);
    // 1 of 4 at a width of 10 is 2.5 characters, which rounds to 3.
    let chart = AsciiChart::new().add("x", hist).bar_width(10);
    assert_eq!(chart.compact().to_string(), "[5,6)  ██████████ 4\n[6,7)  ███ 1");
}

#[test]
fn three_series_use_three_fill_characters() {
    let mut a = Histogram::<()>::new();
    let mut b = Histogram::<()>::new();
    let mut c = Histogram::<()>::new();
    a.record_n(1, 1);
    b.record_n(1, 1);
    c.record_n(1, 1);
    let chart = AsciiChart::new().add("a", a).add("b", b).add("c", c).bar_width(3);
    assert_eq!(chart.compact().to_string(), "[1,2)  █▒░  a:1 b:1 c:1");
}

#[test]
fn test_display_uses_detailed() {
    let mut hist = Histogram::<()>::new();
    hist.record_n(5, 10);

    let chart = AsciiChart::new().add("test", hist.clone());
    let s = [stats(10, 5, 5, 5)];
    assert_eq!(chart.render(&s), chart.detailed().render(&s));
}

#[test]
fn chart_check_wf_rejects_fewer_buckets_than_the_first() {
    let a = Histogram::<()>::with_log_scale(4, 1);
    let b = Histogram::<()>::with_log_scale(3, 1);
    let ok = AsciiChart::new().add("a", b.clone()).add("b", a.clone());
    assert!(ok.check_wf());
    let bad = AsciiChart::new().add("a", a).add("b", b);
    assert!(!bad.check_wf());

    let mut full = Histogram::<()>::new();
    full.record_n(5, u64::MAX);
    let mut one = Histogram::<()>::new();
    one.record_n(5, 1);
    assert!(!AsciiChart::new().add("x", full).add("y", one).check_wf());
}
