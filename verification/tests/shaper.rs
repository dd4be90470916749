//! The shaper by itself.

use downlink_padding::rng::{fresh_seed, GAMMA};
use downlink_padding::shaper::{
    clamp_band, DownlinkShaper, HEAD_MAX, HEAD_MIN, MIN_WASTE_FRAME, SPLIT_MAX, SPLIT_MIN,
};
use downlink_padding::stats::{ShapingCounters, ShapingStats};

/// Capacity of the buffered writer in front of the TLS layer.
const CAP: usize = 32 * 1024;

fn shaping(seed: u64) -> DownlinkShaper {
    let mut s = DownlinkShaper::with_seed(true, CAP, seed);
    s.enable();
    assert!(s.is_enabled());
    s
}

#[test]
fn test_band_is_clamped_to_the_buffer_capacity() {
    // A tiny buffer would be bypassed by band-sized writes and produce one oversized record
    // behind the shaper's back.
    let s = DownlinkShaper::with_seed(true, 512, 1);
    let (head_min, head_max) = s.head_band();
    let (split_min, split_max) = s.split_band();
    assert!(s.target() <= 512);
    assert!(head_max <= 512);
    assert!(split_max <= 512);
    assert!(head_min <= head_max);
    assert!(split_min <= split_max);
}

#[test]
fn test_a_head_that_is_already_large_is_not_filled() {
    // A burst head whose record already carries more than the band floor has no step left to
    // hide; filling it would be pure cost. Only *small* heads are worth padding.
    let mut s = DownlinkShaper::with_seed(true, CAP, 7);
    s.enable();
    s.mark_burst_head();
    let pending = s.head_band().0 + 100;
    s.account(pending);
    assert_eq!(s.pending(), pending);
    assert_eq!(
        s.tail_padding(),
        0,
        "a head already above the band floor must not be padded"
    );
}

#[test]
fn test_seeded_shaper_is_reproducible() {
    let mut a = DownlinkShaper::with_seed(true, CAP, 0x1234_5678);
    let mut b = DownlinkShaper::with_seed(true, CAP, 0x1234_5678);
    let mut c = DownlinkShaper::with_seed(true, CAP, 0x8765_4321);
    a.enable();
    b.enable();
    c.enable();

    let mut seq_a = Vec::new();
    let mut seq_b = Vec::new();
    let mut seq_c = Vec::new();
    for _ in 0..4 {
        seq_a.push(a.target());
        seq_b.push(b.target());
        seq_c.push(c.target());
        for s in [&mut a, &mut b, &mut c] {
            s.account(4096);
            s.record_done(0);
        }
    }
    assert_eq!(seq_a, seq_b, "same seed must give the same record sizes");
    assert_ne!(seq_a, seq_c, "different seeds must diverge");
}

#[test]
fn bands_are_the_constants_in_a_large_buffer() {
    let s = DownlinkShaper::with_seed(true, CAP, 3);
    assert_eq!(s.head_band(), (HEAD_MIN, HEAD_MAX));
    assert_eq!(s.split_band(), (SPLIT_MIN, SPLIT_MAX));
    assert_eq!((HEAD_MIN, HEAD_MAX, SPLIT_MIN, SPLIT_MAX), (320, 1400, 1024, 2560));
    assert_eq!(MIN_WASTE_FRAME, 7);
}

#[test]
fn a_band_never_vanishes() {
    for cap in [0usize, 1] {
        let s = DownlinkShaper::with_seed(true, cap, 9);
        assert_eq!(s.head_band(), (1, 1));
        assert_eq!(s.split_band(), (1, 1));
        assert_eq!(s.target(), 1);
    }
}

#[test]
fn a_band_may_be_cut_off_in_the_middle() {
    let s = DownlinkShaper::with_seed(true, 1200, 9);
    assert_eq!(s.head_band(), (320, 1200));
    assert_eq!(s.split_band(), (1024, 1200));
}

#[test]
fn the_first_targets_of_a_known_seed() {
    // splitmix64 of seed 0 starts with 0xE220A8397B1DCDAF and 0x6E789E6AA1B965F4.
    let mut s = shaping(0);
    assert_eq!(s.target(), 320 + (0xE220_A839_7B1D_CDAFu64 % 1081) as usize);
    s.account(1);
    s.record_done(0);
    assert_eq!(s.target(), 1024 + (0x6E78_9E6A_A1B9_65F4u64 % 1537) as usize);
}

#[test]
fn an_operator_switch_is_not_overridden() {
    let mut off = DownlinkShaper::with_seed(false, CAP, 5);
    assert!(!off.is_configured());
    off.enable();
    assert!(!off.is_enabled());

    let mut on = DownlinkShaper::with_seed(true, CAP, 5);
    assert!(on.is_configured());
    assert!(!on.is_enabled());
    on.enable();
    assert!(on.is_enabled());
}

#[test]
fn a_shaper_that_is_off_counts_nothing() {
    let mut s = DownlinkShaper::with_seed(true, CAP, 5);
    let target = s.target();
    assert_eq!(s.write_budget(), usize::MAX);
    assert!(!s.account(10_000));
    s.mark_burst_head();
    s.record_done(0);
    assert_eq!(s.pending(), 0);
    assert_eq!(s.target(), target);
    assert_eq!(s.tail_padding(), 0);
    assert_eq!(
        s.counters().snapshot(),
        ShapingStats { records: 0, bytes: 0, padded: 0 }
    );
}

#[test]
fn the_budget_is_what_is_left_to_the_target_but_never_nothing() {
    let mut s = shaping(11);
    let target = s.target();
    assert_eq!(s.write_budget(), target);
    assert!(!s.account(100));
    assert_eq!(s.write_budget(), target - 100);
    assert!(s.account(target - 100));
    assert_eq!(s.write_budget(), 1);
    assert!(s.account(50));
    assert_eq!(s.write_budget(), 1);
}

#[test]
fn a_small_head_is_filled_to_its_target() {
    let mut s = shaping(11);
    let target = s.target();
    s.account(7);
    assert_eq!(s.tail_padding(), target - 7);
}

#[test]
fn an_empty_head_is_not_filled() {
    assert_eq!(shaping(11).tail_padding(), 0);
}

#[test]
fn a_fill_is_never_shorter_than_a_frame_header() {
    // In a buffer of 340 bytes the heads aim for 320 to 340: some seed aims for 320 to 325.
    let mut seed = 0;
    loop {
        let mut s = DownlinkShaper::with_seed(true, 340, seed);
        s.enable();
        if s.target() <= 325 {
            s.account(319);
            assert_eq!(s.tail_padding(), MIN_WASTE_FRAME);
            return;
        }
        seed += 1;
    }
}

#[test]
fn a_fill_that_does_not_fit_is_left_out() {
    let mut s = DownlinkShaper::with_seed(true, 322, 1);
    s.enable();
    s.account(319);
    assert_eq!(s.tail_padding(), 0);
}

#[test]
fn a_head_marked_inside_a_bulk_record_is_filled_to_the_top_of_the_fill_band_at_most() {
    let mut seed = 0;
    loop {
        let mut s = shaping(seed);
        s.account(1);
        s.record_done(0);
        if s.target() > HEAD_MAX {
            let target = s.target();
            s.account(10);
            s.mark_burst_head();
            assert_eq!(s.target(), target, "a record keeps the size it was drawn");
            assert_eq!(s.tail_padding(), HEAD_MAX - 10);
            return;
        }
        seed += 1;
    }
}

#[test]
fn a_bulk_record_is_not_filled() {
    let mut s = shaping(2);
    s.account(1);
    s.record_done(0);
    s.account(40);
    assert_eq!(s.tail_padding(), 0);
}

#[test]
fn targets_lie_in_their_bands() {
    let mut s = shaping(0xDEAD_BEEF);
    for _ in 0..2000 {
        s.mark_burst_head();
        assert!((HEAD_MIN..=HEAD_MAX).contains(&s.target()));
        s.account(1);
        s.record_done(0);
        assert!((SPLIT_MIN..=SPLIT_MAX).contains(&s.target()));
    }
}

#[test]
fn records_are_counted_with_their_padding() {
    let mut s = shaping(4);
    s.account(100);
    s.record_done(30);
    s.account(5);
    s.record_done(0);
    s.record_done(9);
    let stats = s.counters().snapshot();
    assert_eq!(stats, ShapingStats { records: 2, bytes: 105, padded: 30 });
    assert_eq!(stats.real_bytes(), 75);
    assert_eq!(stats.padding_fraction(), (30, 75));
}

#[test]
fn stats_of_nothing_have_no_padding() {
    let none = ShapingCounters::default().snapshot();
    assert_eq!(none.real_bytes(), 0);
    assert_eq!(none.padding_fraction(), (0, 1));
    let odd = ShapingStats { records: 1, bytes: 10, padded: 12 };
    assert_eq!(odd.real_bytes(), 0);
    assert_eq!(odd.padding_fraction(), (0, 1));
}

#[test]
fn a_new_shaper_is_not_shaping_and_has_the_bands() {
    let s = DownlinkShaper::new(true, CAP, Some(77), 0);
    assert!(s.is_configured());
    assert!(!s.is_enabled());
    assert_eq!(s.pending(), 0);
    assert_eq!(s.head_band(), (HEAD_MIN, HEAD_MAX));
    assert!((HEAD_MIN..=HEAD_MAX).contains(&s.target()));
}

#[test]
fn a_band_is_drawn_from_in_full() {
    let mut s = DownlinkShaper::with_seed(true, 340, 1);
    s.enable();
    let mut seen = std::collections::BTreeSet::new();
    for _ in 0..2000 {
        s.mark_burst_head();
        seen.insert(s.target());
    }
    assert!(seen.into_iter().eq(320..=340));
}

#[test]
fn a_mark_before_the_first_byte_draws_a_head_anew() {
    let mut s = shaping(3);
    s.account(1);
    s.record_done(0);
    s.mark_burst_head();
    assert!((HEAD_MIN..=HEAD_MAX).contains(&s.target()));
    s.account(1);
    assert!(s.tail_padding() > 0);
}

#[test]
fn a_new_shaper_has_the_seed_of_its_session() {
    for session in 0..50u64 {
        let mut s = DownlinkShaper::new(true, CAP, Some(12_345), session);
        let mut t = DownlinkShaper::with_seed(true, CAP, fresh_seed(Some(12_345), session));
        s.enable();
        t.enable();
        for _ in 0..5 {
            assert_eq!(s.target(), t.target());
            s.account(1);
            t.account(1);
            s.record_done(0);
            t.record_done(0);
        }
    }
}

#[test]
fn sessions_of_one_process_draw_different_sizes() {
    let sizes = |session: u64| -> Vec<usize> {
        let mut s = DownlinkShaper::new(true, CAP, Some(GAMMA as u128), session);
        s.enable();
        (0..8)
            .map(|_| {
                let size = s.target();
                s.account(1);
                s.record_done(0);
                size
            })
            .collect()
    };
    assert_ne!(sizes(0), sizes(1));
    assert_ne!(sizes(1), sizes(2));
}

#[test]
fn a_clamped_band_fits_the_buffer() {
    for cap in [0usize, 1, 2, 319, 320, 321, 1023, 1024, 1399, 1400, 1401, 2559, 2560, 2561, CAP] {
        let s = DownlinkShaper::with_seed(true, cap, 1);
        let room = cap.max(1);
        let clamp = |lo: usize, hi: usize| (lo.min(hi.min(room)), hi.min(room));
        assert_eq!(s.head_band(), clamp(HEAD_MIN, HEAD_MAX));
        assert_eq!(s.split_band(), clamp(SPLIT_MIN, SPLIT_MAX));
    }
}

#[test]
fn a_band_is_drawn_from_evenly() {
    // 21 sizes and 42,000 draws: about 2,000 each.
    let mut s = DownlinkShaper::with_seed(true, 340, 1);
    s.enable();
    let mut counts = [0usize; 21];
    for _ in 0..42_000 {
        s.mark_burst_head();
        counts[s.target() - 320] += 1;
    }
    assert!(counts.iter().all(|n| (1_700..2_300).contains(n)), "{counts:?}");
}

#[test]
fn clamping_leaves_a_band_that_fits_and_cuts_off_one_that_does_not() {
    assert_eq!(clamp_band(600, 1_400, 32_768), (600, 1_400));
    assert_eq!(clamp_band(600, 1_400, 1_400), (600, 1_400));
    assert_eq!(clamp_band(600, 1_400, 1_399), (600, 1_399));
    assert_eq!(clamp_band(600, 1_400, 100), (100, 100));
    assert_eq!(clamp_band(600, 1_400, 1), (1, 1));
    assert_eq!(clamp_band(600, 1_400, 0), (1, 1));
    assert_eq!(clamp_band(9, 4, 32_768), (4, 4));
    assert_eq!(clamp_band(9, 0, 0), (0, 0));
    for capacity in 0..2_000 {
        let (lo, hi) = clamp_band(600, 1_400, capacity);
        assert_eq!(clamp_band(lo, hi, capacity), (lo, hi));
    }
}
