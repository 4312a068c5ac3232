use spatial_hash::stats::{HashStats, MAX_SLOTS};

#[test]
fn statistics_of_a_small_table() {
    let stats = HashStats::new(&[3, 1, 0, 4, 0], 1);
    assert_eq!(stats, HashStats { unique: 3, samples: 8, slots: 5, spread: 224 });
}

#[test]
fn statistics_of_an_even_table() {
    let table = [1, 1, 1, 1, 1, 1, 1, 1, 0];
    let stats = HashStats::new(&table, 1);
    assert_eq!(stats, HashStats { unique: 8, samples: 8, slots: 9, spread: 64 });
}

#[test]
fn statistics_of_the_smallest_table() {
    let stats = HashStats::new(&[8, 0], 1);
    assert_eq!(stats, HashStats { unique: 1, samples: 8, slots: 2, spread: 64 });
}

#[test]
fn spread_is_the_sum_of_scaled_squared_deviations() {
    let table = [5u32, 0, 9, 2, 11, 0, 37, 0, 0];
    let bounds = 2;
    let stats = HashStats::new(&table, bounds);
    let m = table.len() as i128 - 1;
    let t = 64i128;
    let want: i128 = table.iter().map(|c| (m * *c as i128 - t).pow(2)).sum();
    assert_eq!(stats.spread as i128, want);
    assert_eq!(stats.unique, 5);
}

#[test]
fn mean_is_samples_over_buckets_without_guard() {
    for bounds in [1, 2, 3, 32] {
        let mut table = vec![0u32; 17];
        table[3] = (2 * bounds as u32).pow(3);
        let stats = HashStats::new(&table, bounds);
        assert_eq!(stats.samples, (2 * bounds as u64).pow(3));
        assert_eq!(stats.slots, 17);
        let mean = stats.samples as f32 / (stats.slots - 1) as f32;
        let want = (2.0 * bounds as f32).powi(3) / (table.len() - 1) as f32;
        assert!((mean - want).abs() <= f32::EPSILON * want);
    }
}

#[test]
fn variance_counts_empty_counters() {
    // 64 samples over 4 buckets and a guard: the mean is 16. One counter
    // holds all samples; the empty ones, the guard among them, each add 16^2.
    let stats = HashStats::new(&[64, 0, 0, 0, 0], 2);
    assert_eq!(stats.spread, 16 * (48 * 48 + 4 * 16 * 16));
    let buckets = (stats.slots - 1) as f64;
    let variance = stats.spread as f64 / (buckets * buckets) / stats.slots as f64;
    assert!((variance - (48.0 * 48.0 + 4.0 * 256.0) / 5.0).abs() < 1e-9);
}

#[test]
fn squared_coefficient_of_variation_is_variance_over_squared_mean() {
    let stats = HashStats::new(&[5, 0, 9, 2, 11, 0, 37, 0, 0], 2);
    let buckets = (stats.slots - 1) as f64;
    let mean = stats.samples as f64 / buckets;
    let variance = stats.spread as f64 / (buckets * buckets) / stats.slots as f64;
    let cv_squared = stats.spread as f64 / (stats.slots as f64 * (stats.samples as f64).powi(2));
    assert!((cv_squared - variance / (mean * mean)).abs() < 1e-12);
    assert!((cv_squared.sqrt() - variance.sqrt() / mean).abs() < 1e-12);
}

#[test]
fn smaller_spread_is_smaller_coefficient_of_variation() {
    let even = HashStats::new(&[2, 2, 2, 2, 0], 1);
    let skew = HashStats::new(&[8, 0, 0, 0, 0], 1);
    assert!(even.cv_less(&skew));
    assert!(!skew.cv_less(&even));
    assert!(!even.cv_less(&even));
    let other = HashStats::new(&[0, 0, 8, 0, 0], 1);
    assert!(!skew.cv_less(&other));
    assert!(!other.cv_less(&skew));
}

#[test]
fn largest_inputs_do_not_overflow() {
    let mut table = vec![0u32; 9];
    table[0] = u32::MAX - 1;
    table[5] = 1;
    let stats = HashStats::new(&table, 812);
    assert_eq!(stats.samples, 1624u64.pow(3));
    let t = 1624i128.pow(3);
    let want = (8 * (u32::MAX as i128 - 1) - t).pow(2) + (8 - t).pow(2) + 7 * t * t;
    assert_eq!(stats.spread as i128, want);
    assert_eq!(MAX_SLOTS, (1usize << 31) + 1);
}
