use spatial_hash::domain::MAX_BOUNDS;
use spatial_hash::hash::{hash_fnv_style, hash_murmur_style, hash_wang_style, BUCKET_COUNT};
use spatial_hash::sampler::{ivec_range, occupancy_table, table_len, MAX_BITS};
use spatial_hash::stats::HashStats;
use spatial_hash::u32x3_to_18_bits;

#[test]
fn table_has_one_guard_counter() {
    assert_eq!(table_len(0), 2);
    assert_eq!(table_len(4), 17);
    assert_eq!(table_len(18), 262145);
    assert_eq!(table_len(MAX_BITS), 0x8000_0001);
}

#[test]
fn fnv_on_small_domain_with_four_bits() {
    let table = occupancy_table(2, 4, |v| hash_fnv_style(v, 2, 1) & 15);
    assert_eq!(table, vec![6, 2, 2, 7, 5, 9, 2, 0, 8, 0, 5, 4, 0, 4, 4, 6, 0]);
    assert_eq!(table.len(), 17);
    assert_eq!(table.iter().map(|c| *c as u64).sum::<u64>(), 64);

    let stats = HashStats::new(&table, 2);
    assert_eq!(stats.samples, 64);
    assert_eq!(stats.slots, 17);
    assert_eq!(stats.unique, 13);
    assert_eq!(stats.spread, 34816);

    let mean = stats.samples as f64 / (stats.slots - 1) as f64;
    let variance = stats.spread as f64 / ((stats.slots - 1) as f64).powi(2) / stats.slots as f64;
    let cv = variance.sqrt() / mean;
    assert!(cv.is_finite());
    assert!(cv >= 0.0);
    assert!((mean - 4.0).abs() < 1e-12);
    assert!((variance - 8.0).abs() < 1e-12);
    assert!((cv - 0.7071067811865476).abs() < 1e-12);
}

#[test]
fn counters_sum_to_the_size_of_the_domain() {
    for bounds in 1..=5 {
        let table = occupancy_table(bounds, 6, |v| u32x3_to_18_bits(v) & 63);
        let total: u64 = table.iter().map(|c| *c as u64).sum();
        assert_eq!(total, (2 * bounds as u64).pow(3));
        assert_eq!(table.len(), 65);
    }
}

#[test]
fn constant_hash_fills_one_counter() {
    let table = occupancy_table(3, 2, |_| 1);
    assert_eq!(table, vec![0, 216, 0, 0, 0]);
}

#[test]
fn guard_counter_takes_the_index_above_the_buckets() {
    let table = occupancy_table(1, 3, |v| if v[2] < 0 { 8 } else { 0 });
    assert_eq!(table, vec![4, 0, 0, 0, 0, 0, 0, 0, 4]);
}

#[test]
fn single_bucket_table() {
    let table = occupancy_table(1, 0, |v| if v[0] == -1 && v[1] == -1 { 1 } else { 0 });
    assert_eq!(table, vec![6, 2]);
}

#[test]
fn coordinates_are_visited_in_lexicographic_order() {
    let seen = std::cell::RefCell::new(Vec::new());
    let table = occupancy_table(1, 1, |v| {
        seen.borrow_mut().push(v);
        0
    });
    assert_eq!(table, vec![8, 0, 0]);
    assert_eq!(
        seen.into_inner(),
        vec![
            [-1, -1, -1],
            [-1, -1, 0],
            [-1, 0, -1],
            [-1, 0, 0],
            [0, -1, -1],
            [0, -1, 0],
            [0, 0, -1],
            [0, 0, 0],
        ]
    );
}

#[test]
fn each_coordinate_is_counted_in_the_bucket_of_its_hash() {
    let table = occupancy_table(1, 18, |v| hash_murmur_style(v, 16, 13, 16));
    let hit: Vec<usize> = (0..table.len()).filter(|k| table[*k] > 0).collect();
    assert_eq!(hit, vec![0, 36108, 92248, 133217, 161716, 172960, 212618, 259554]);
    assert!(hit.iter().all(|k| table[*k] == 1));
    assert_eq!(table[hash_murmur_style([0, 0, 0], 16, 13, 16) as usize], 1);
}

#[test]
fn ivec_range_measures_fnv() {
    let stats = ivec_range(2, |v| hash_fnv_style(v, 2, 1));
    assert_eq!(stats.samples, 64);
    assert_eq!(stats.slots, BUCKET_COUNT as u64 + 1);
    assert_eq!(stats.unique, 36);
    assert_eq!(stats.spread, 9894530912256);
}

#[test]
fn ivec_range_measures_the_fixed_hash() {
    let stats = ivec_range(3, u32x3_to_18_bits);
    assert_eq!(
        stats,
        HashStats { unique: 216, samples: 216, slots: 262145, spread: 14831176431168 }
    );
}

#[test]
fn ivec_range_on_a_domain_as_large_as_the_table() {
    assert_eq!(
        ivec_range(32, u32x3_to_18_bits),
        HashStats { unique: 166405, samples: 262144, slots: 262145, spread: 17805285141774336 }
    );
    assert_eq!(
        ivec_range(32, |v| hash_murmur_style(v, 16, 13, 16)),
        HashStats { unique: 139167, samples: 262144, slots: 262145, spread: 26975761873240064 }
    );
    assert_eq!(
        ivec_range(32, |v| hash_wang_style(v, 8, 16, 16, 4, 15)),
        HashStats { unique: 165648, samples: 262144, slots: 262145, spread: 18064632446976000 }
    );
}

#[test]
fn ivec_range_agrees_with_table_and_statistics() {
    let table = occupancy_table(2, 18, |v| hash_murmur_style(v, 3, 5, 7));
    assert_eq!(ivec_range(2, |v| hash_murmur_style(v, 3, 5, 7)), HashStats::new(&table, 2));
}

#[test]
fn widest_domain_is_bounded_by_the_counters() {
    assert_eq!(MAX_BOUNDS, 812);
    assert!((2 * MAX_BOUNDS as u64).pow(3) <= u32::MAX as u64);
    assert!((2 * (MAX_BOUNDS as u64 + 1)).pow(3) > u32::MAX as u64);
}
