# base2histogram

A fixed-size logarithmic histogram over `u64` values, verified with Verus.

Each value maps to one of `2^(w-1) * (66 - w)` buckets (252 at the default
width 3): values below twice the group size map one to one, and above that
the most significant bit picks a group and the next `w - 1` bits pick the
bucket inside it. Multi-slot histograms keep a sliding window of periods:
the aggregate holds every period, the stored slots hold the older ones, and
the current period is the difference.

Each histogram owns its scale's lookup tables (the boundary table and a
small-value table of up to 4096 bytes) rather than sharing one static
instance, so a histogram takes its bucket counts plus those tables.

## Layout

- `src/` — the verified library.
  - `geometry.rs`, `bits.rs`: the mathematical bucket layout and its laws
    (every value lies in its bucket, boundaries increase, `u64::MAX` is in the
    last bucket).
  - `config.rs`, `scale.rs`, `bucket.rs`: the executable scale with its lookup
    tables, proved equal to the layout; bucket views and the relative-error
    bound of a bucket.
  - `sums.rs`, `slot.rs`, `histogram.rs`: counts, slots and the histogram;
    `advance` is specified over the stored periods and the aggregate.
  - `interpolator.rs`: locating a rank or a position among the counts, the
    forward-only cursor, and rebuilding counts from running totals.
  - `text.rs`, `display.rs`, `chart.rs`: text renderings, specified character
    by character.
  - `rng.rs`: the xorshift generator used by the benchmarks.
- `tests/` — tests of the library.
- `app/` — what the library does not hold: the floating-point density
  estimates (percentiles, counts below a position, re-binning), the chart
  footer that needs them, and the accuracy and speed programs.
