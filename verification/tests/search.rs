use spatial_hash::family::{evaluate_family, HashFamily};
use spatial_hash::hash::{hash_fnv_style, hash_wang_style};
use spatial_hash::sampler::ivec_range;
use spatial_hash::search::{permute5, BestResult, HashConsts};
use spatial_hash::stats::HashStats;

fn stats_with_spread(spread: u128) -> HashStats {
    HashStats { unique: 1, samples: 8, slots: 5, spread }
}

fn consts(a: u32, b: u32, c: u32, d: u32, e: u32) -> HashConsts {
    HashConsts { a, b, c, d, e }
}

#[test]
fn default_consts_are_zero() {
    assert_eq!(HashConsts::default(), consts(0, 0, 0, 0, 0));
}

#[test]
fn empty_record_takes_the_first_measurement() {
    let mut best = BestResult::new();
    assert!(best.stats.is_none());
    assert_eq!(best.consts, consts(0, 0, 0, 0, 0));
    best.offer(consts(1, 2, 3, 4, 5), stats_with_spread(u128::MAX));
    assert_eq!(best.consts, consts(1, 2, 3, 4, 5));
    assert_eq!(best.stats, Some(stats_with_spread(u128::MAX)));
}

#[test]
fn record_never_gets_worse() {
    let spreads = [90u128, 120, 90, 40, 41, 40, 7, 300, 7, 0, 5];
    let mut best = BestResult::new();
    let mut last = u128::MAX;
    for (i, spread) in spreads.iter().enumerate() {
        best.offer(consts(i as u32, 0, 0, 0, 0), stats_with_spread(*spread));
        let now = best.stats.unwrap().spread;
        assert!(now <= last);
        assert_eq!(now, *spreads[..=i].iter().min().unwrap());
        last = now;
    }
    assert_eq!(best.consts, consts(9, 0, 0, 0, 0));
}

#[test]
fn tie_keeps_the_first_tuple() {
    let mut best = BestResult::new();
    best.offer(consts(0, 0, 0, 0, 1), stats_with_spread(50));
    best.offer(consts(0, 0, 0, 0, 2), stats_with_spread(50));
    assert_eq!(best.consts, consts(0, 0, 0, 0, 1));
    best.offer(consts(0, 0, 0, 0, 3), stats_with_spread(49));
    assert_eq!(best.consts, consts(0, 0, 0, 0, 3));
    best.offer(consts(0, 0, 0, 0, 4), stats_with_spread(49));
    assert_eq!(best.consts, consts(0, 0, 0, 0, 3));
}

#[test]
fn search_visits_every_tuple_once_in_order() {
    let seen = std::cell::RefCell::new(Vec::new());
    let found = permute5(1, 0, 2, 0, 1, |a, b, c, d, e| {
        seen.borrow_mut().push((a, b, c, d, e));
        stats_with_spread(100)
    });
    assert_eq!(found, (consts(0, 0, 0, 0, 0), stats_with_spread(100)));
    assert_eq!(
        seen.into_inner(),
        vec![
            (0, 0, 0, 0, 0),
            (0, 0, 0, 0, 1),
            (0, 0, 1, 0, 0),
            (0, 0, 1, 0, 1),
            (0, 0, 2, 0, 0),
            (0, 0, 2, 0, 1),
            (1, 0, 0, 0, 0),
            (1, 0, 0, 0, 1),
            (1, 0, 1, 0, 0),
            (1, 0, 1, 0, 1),
            (1, 0, 2, 0, 0),
            (1, 0, 2, 0, 1),
        ]
    );
}

#[test]
fn search_with_all_limits_zero_measures_one_tuple() {
    let found = permute5(0, 0, 0, 0, 0, |_, _, _, _, _| stats_with_spread(3));
    assert_eq!(found, (consts(0, 0, 0, 0, 0), stats_with_spread(3)));
}

#[test]
fn search_finds_the_least_spread() {
    let found = permute5(3, 3, 3, 3, 3, |a, b, c, d, e| {
        let dist = |x: u32, y: u32| (x as i64 - y as i64).pow(2) as u128;
        stats_with_spread(dist(a, 2) + dist(b, 0) + dist(c, 3) + dist(d, 1) + dist(e, 2) + 10)
    });
    assert_eq!(found, (consts(2, 0, 3, 1, 2), stats_with_spread(10)));
}

#[test]
fn search_keeps_the_first_of_equal_tuples() {
    let found = permute5(2, 2, 2, 0, 0, |a, b, c, _, _| {
        stats_with_spread(if a + b + c == 3 { 5 } else { 9 })
    });
    assert_eq!(found, (consts(0, 1, 2, 0, 0), stats_with_spread(5)));
}

#[test]
fn search_over_closures_measures_fnv() {
    let found = permute5(3, 3, 0, 0, 0, |a, b, _, _, _| {
        ivec_range(2, |v| hash_fnv_style(v, a, b))
    });
    assert_eq!(found.0, consts(1, 1, 0, 0, 0));
    assert_eq!(
        found.1,
        HashStats { unique: 36, samples: 64, slots: 262145, spread: 9894530912256 }
    );
}

#[test]
fn family_search_fnv() {
    let found = evaluate_family(HashFamily::Fnv, 2, consts(3, 3, 0, 0, 0));
    assert_eq!(found.0, consts(1, 1, 0, 0, 0));
    assert_eq!(
        found.1,
        HashStats { unique: 36, samples: 64, slots: 262145, spread: 9894530912256 }
    );
}

#[test]
fn family_search_murmur() {
    let found = evaluate_family(HashFamily::Murmur, 1, consts(2, 2, 2, 0, 0));
    assert_eq!(found.0, consts(1, 1, 1, 0, 0));
    assert_eq!(
        found.1,
        HashStats { unique: 8, samples: 8, slots: 262145, spread: 549739036736 }
    );
}

#[test]
fn family_search_xxhash() {
    let found = evaluate_family(HashFamily::XxHash, 1, consts(1, 1, 2, 2, 0));
    assert_eq!(found.0, consts(0, 0, 1, 1, 0));
    assert_eq!(found.1.spread, 549739036736);
    assert_eq!(found.1.unique, 8);
}

#[test]
fn family_search_splitmix() {
    let found = evaluate_family(HashFamily::SplitMix, 1, consts(2, 1, 1, 0, 0));
    assert_eq!(found.0, consts(1, 1, 1, 0, 0));
    assert_eq!(found.1.spread, 1649250664512);
    assert_eq!(found.1.unique, 3);
}

#[test]
fn family_search_pcg() {
    let found = evaluate_family(HashFamily::Pcg, 1, consts(1, 1, 1, 1, 0));
    assert_eq!(found.0, consts(1, 0, 0, 1, 0));
    assert_eq!(found.1.spread, 1099494850624);
    assert_eq!(found.1.unique, 4);
}

#[test]
fn family_search_wang() {
    let found = evaluate_family(HashFamily::Wang, 1, consts(1, 1, 1, 1, 1));
    assert_eq!(found.0, consts(0, 1, 1, 1, 1));
    assert_eq!(found.1.spread, 2199006478400);
    assert_eq!(found.1.unique, 2);
}

#[test]
fn family_hash_uses_the_amounts_in_order() {
    let k = consts(8, 16, 16, 4, 15);
    assert_eq!(HashFamily::Wang.hash([1, 2, 3], k), hash_wang_style([1, 2, 3], 8, 16, 16, 4, 15));
    assert_eq!(HashFamily::Wang.hash([1, 2, 3], k), 50213);
    assert_eq!(HashFamily::Murmur.hash([1, 2, 3], consts(16, 13, 16, 99, 99)), 46081);
    assert_eq!(HashFamily::XxHash.hash([1, 2, 3], consts(2, 13, 1, 1, 99)), 230179);
    assert_eq!(HashFamily::SplitMix.hash([1, 2, 3], consts(30, 27, 31, 99, 99)), 214430);
    assert_eq!(HashFamily::Pcg.hash([1, 2, 3], consts(18, 27, 32, 16, 99)), 219937);
    assert_eq!(HashFamily::Fnv.hash([1, 2, 3], consts(2, 1, 99, 99, 99)), 75971);
}

#[test]
fn family_measure_agrees_with_ivec_range() {
    let k = consts(2, 1, 0, 0, 0);
    assert_eq!(HashFamily::Fnv.measure(2, k), ivec_range(2, |v| hash_fnv_style(v, 2, 1)));
}

#[test]
fn family_admits_shifts_below_the_word_width() {
    assert!(HashFamily::Murmur.admits(consts(31, 31, 31, 99, 99)));
    assert!(!HashFamily::Murmur.admits(consts(32, 0, 0, 0, 0)));
    assert!(HashFamily::XxHash.admits(consts(99, 99, 31, 31, 99)));
    assert!(!HashFamily::XxHash.admits(consts(0, 0, 0, 32, 0)));
    assert!(HashFamily::SplitMix.admits(consts(63, 63, 63, 99, 99)));
    assert!(!HashFamily::SplitMix.admits(consts(0, 64, 0, 0, 0)));
    assert!(HashFamily::Pcg.admits(consts(63, 63, 63, 63, 99)));
    assert!(!HashFamily::Pcg.admits(consts(0, 0, 0, 64, 0)));
    assert!(HashFamily::Wang.admits(consts(31, 31, 31, 31, 31)));
    assert!(!HashFamily::Wang.admits(consts(0, 0, 0, 0, 32)));
    assert!(HashFamily::Fnv.admits(consts(31, 31, 99, 99, 99)));
    assert!(!HashFamily::Fnv.admits(consts(0, 32, 0, 0, 0)));
}
