//! The generator and its seeds.

use downlink_padding::rng::{fresh_seed, mix, SeedSource, GAMMA};

#[test]
fn the_first_words_of_seed_zero() {
    let words = [0xE220_A839_7B1D_CDAFu64, 0x6E78_9E6A_A1B9_65F4, 0x06C4_5D18_8009_454F];
    let mut state = 0u64;
    for word in words {
        state = state.wrapping_add(GAMMA);
        assert_eq!(mix(state), word);
    }
}

#[test]
fn different_inputs_mix_to_different_words() {
    let mut words: Vec<u64> = (0..5000u64).map(mix).collect();
    words.sort();
    words.dedup();
    assert_eq!(words.len(), 5000);
}

#[test]
fn a_seed_mixes_the_clock_and_the_session() {
    assert_eq!(fresh_seed(Some(0), 0), mix(0));
    assert_eq!(fresh_seed(Some(12_345), 0), mix(12_345));
    assert_eq!(fresh_seed(Some(12_345), 1), mix(12_345 ^ GAMMA));
    assert_eq!(fresh_seed(Some(0), 2), mix(GAMMA.wrapping_mul(2)));
}

#[test]
fn a_reading_counts_with_its_low_bits() {
    let high = 1u128 << 64;
    assert_eq!(fresh_seed(Some(high + 77), 3), fresh_seed(Some(77), 3));
    assert_eq!(fresh_seed(None, 3), fresh_seed(Some(0), 3));
}

#[test]
fn sessions_of_one_process_get_distinct_seeds() {
    let mut seeds: Vec<u64> = (0..5000u64).map(|n| fresh_seed(Some(987_654_321), n)).collect();
    seeds.sort();
    seeds.dedup();
    assert_eq!(seeds.len(), 5000);
}

#[test]
fn a_source_reads_the_clock_once_and_numbers_sessions() {
    let before = std::time::UNIX_EPOCH.elapsed().unwrap().as_nanos();
    let mut source = SeedSource::new();
    let after = std::time::UNIX_EPOCH.elapsed().unwrap().as_nanos();
    let epoch = source.epoch();
    assert!((before..=after).contains(&epoch.unwrap()));
    for n in 0..10u64 {
        assert_eq!(source.next_session(), n);
        assert_eq!(source.epoch(), epoch);
    }
}

#[test]
fn sessions_of_one_source_never_share_a_seed() {
    for epoch in [None, Some(0), Some(GAMMA as u128), Some(u128::MAX)] {
        let mut source = SeedSource::at(epoch);
        assert_eq!(source.epoch(), epoch);
        let mut seeds: Vec<u64> = (0..3000)
            .map(|_| fresh_seed(source.epoch(), source.next_session()))
            .collect();
        seeds.sort();
        seeds.dedup();
        assert_eq!(seeds.len(), 3000);
    }
}

#[test]
fn distinct_seeds_never_agree() {
    let (mut a, mut b) = (1u64, 2u64);
    for _ in 0..1000 {
        a = a.wrapping_add(GAMMA);
        b = b.wrapping_add(GAMMA);
        assert_ne!(mix(a), mix(b));
    }
}
