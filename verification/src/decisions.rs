//! What the shaper's decisions amount to, one by one: what a result has to satisfy, and how
//! one decision relates to another.

use crate::laws::drawing_state;
use crate::shaper::{
    clamped, lemma_mark_burst_head, lemma_pick_target, lemma_record_done, lemma_seeded, size_in,
    ShaperModel, HEAD_MAX, HEAD_MIN, SPLIT_MAX, SPLIT_MIN,
};
use crate::write_state::flush_outcome;
use vstd::prelude::*;

verus! {

/// Whether `s` came from a generator in state `rng` by one draw from `[lo, hi]`: the state has
/// moved on by one step, and the target is the one size in the band that is as far above its
/// floor as the new state's word is above a multiple of the number of sizes. A band of one size
/// leaves nothing to draw.
pub open spec fn drawn_from(rng: u64, lo: nat, hi: nat, s: ShaperModel) -> bool {
    if lo < hi {
        &&& s.rng == crate::rng::state_after(rng, 1)
        &&& lo <= s.target <= hi
        &&& (crate::rng::mixed(s.rng) - (s.target - lo)) % (hi - lo + 1) == 0
    } else {
        s.rng == rng && s.target == lo
    }
}

/// What is left of a word above a multiple of `n` is a multiple of `n` below it.
proof fn lemma_remainder_taken_off(word: u64, n: int)
    requires
        n > 0,
    ensures
        (word - word as int % n) % n == 0,
{
    vstd::arithmetic::div_mod::lemma_fundamental_div_mod(word as int, n);
    vstd::arithmetic::div_mod::lemma_mod_multiples_basic(word as int / n, n);
    assert(n * (word as int / n) == (word as int / n) * n) by (nonlinear_arith);
}

/// Drawing a target is one draw from the band of the record.
proof fn lemma_pick_draws(s: ShaperModel)
    requires
        s.head_min <= s.head_max,
        s.split_min <= s.split_max,
    ensures
        s.head ==> drawn_from(s.rng, s.head_min, s.head_max, s.pick_target()),
        !s.head ==> drawn_from(s.rng, s.split_min, s.split_max, s.pick_target()),
{
    let word: u64 = crate::rng::mixed(crate::rng::next_state(s.rng));
    reveal_with_fuel(crate::rng::state_after, 2);
    assert(crate::rng::state_after(s.rng, 1) == crate::rng::next_state(s.rng));
    lemma_pick_target(s);
    lemma_remainder_taken_off(word, s.head_max - s.head_min + 1);
    lemma_remainder_taken_off(word, s.split_max - s.split_min + 1);
}

/// Law: a draw leaves no choice. Of the sizes in a band a word picks just one.
pub proof fn law_a_word_picks_one_size(lo: nat, hi: nat, word: u64, a: nat, b: nat)
    requires
        lo <= a <= hi,
        lo <= b <= hi,
        (word - (a - lo)) % (hi - lo + 1) == 0,
        (word - (b - lo)) % (hi - lo + 1) == 0,
    ensures
        a == b,
        a == size_in(lo, hi, word),
{
    let n: int = hi - lo + 1;
    let w: int = word as int;
    lemma_one_remainder(w, a - lo, n);
    lemma_one_remainder(w, b - lo, n);
}

/// A number below `n` that is a multiple of `n` short of `w` is the remainder of `w`.
proof fn lemma_one_remainder(w: int, r: int, n: int)
    requires
        0 <= r < n,
        (w - r) % n == 0,
    ensures
        r == w % n,
{
    let q: int = (w - r) / n;
    vstd::arithmetic::div_mod::lemma_fundamental_div_mod(w - r, n);
    assert(n * q == q * n) by (nonlinear_arith);
    vstd::arithmetic::div_mod::lemma_fundamental_div_mod_converse(w, n, q, r);
}

/// Law: a new shaper waits. Whatever the operator's flag, the buffer and the seed, it keeps the
/// flag, is not shaping, has counted nothing, and stands at a burst head whose size is the first
/// draw from the seed. Its bands are the constants, each bound lowered to what the buffer holds
/// where it would exceed it, an empty buffer counting as one of a single byte.
pub proof fn law_a_new_shaper_waits(configured: bool, capacity: nat, seed: u64)
    ensures
        ({
            let s: ShaperModel = ShaperModel::seeded(configured, capacity, seed);
            let room: nat = if capacity == 0 {
                1
            } else {
                capacity
            };
            &&& s.wf()
            &&& !s.enabled
            &&& s.configured == configured
            &&& s.pending == 0
            &&& s.head
            &&& s.stats.records == 0 && s.stats.bytes == 0 && s.stats.padded == 0
            &&& drawn_from(seed, s.head_min, s.head_max, s)
            &&& s.head_min <= 320 && s.head_min <= room && (s.head_min == 320 || s.head_min == room)
            &&& s.head_max <= 1400 && s.head_max <= room && (s.head_max == 1400 || s.head_max
                == room)
            &&& s.split_min <= 1024 && s.split_min <= room && (s.split_min == 1024 || s.split_min
                == room)
            &&& s.split_max <= 2560 && s.split_max <= room && (s.split_max == 2560 || s.split_max
                == room)
        }),
{
    let (head_min, head_max): (nat, nat) = clamped(HEAD_MIN as nat, HEAD_MAX as nat, capacity);
    let (split_min, split_max): (nat, nat) = clamped(SPLIT_MIN as nat, SPLIT_MAX as nat, capacity);
    lemma_seeded(configured, capacity, seed);
    lemma_pick_draws(
        ShaperModel {
            configured,
            enabled: false,
            pending: 0,
            target: head_max,
            head: true,
            head_min,
            head_max,
            split_min,
            split_max,
            rng: seed,
            stats: crate::stats::ShapingStats::zero(),
        },
    );
}

/// Law: the peer's announcement starts shaping just where the operator allows it, moves nothing
/// but the switch, and does so once.
pub proof fn law_the_announcement_only_switches(s: ShaperModel)
    ensures
        s.enable().enabled <==> s.configured,
        s.enable() == (ShaperModel { enabled: s.enable().enabled, ..s }),
        s.enable().enable() == s.enable(),
{
}

/// Law: bytes are counted while shaping, each once, and nothing else moves. A record is full
/// when it has as many bytes as it aims for, or more.
pub proof fn law_bytes_are_counted_once(s: ShaperModel, n: nat, m: nat)
    ensures
        s.enabled ==> s.account(n).pending == s.pending + n,
        s.account(n) == (ShaperModel { pending: s.account(n).pending, ..s }),
        !s.enabled ==> s.account(n).pending == s.pending,
        s.account(n).account(m) == s.account(n + m),
        s.full() <==> s.enabled && s.pending >= s.target,
{
}

/// Law: the budget is the least number of bytes that fills the record; and there is no limit
/// where nothing is being shaped.
pub proof fn law_the_budget_just_fills_the_record(s: ShaperModel, n: nat)
    requires
        n >= 1,
    ensures
        s.budget() >= 1,
        s.enabled ==> (s.account(n).full() <==> n >= s.budget()),
        !s.enabled ==> s.budget() == usize::MAX && !s.account(n).full(),
{
}

/// How far two sizes are apart.
pub open spec fn apart(a: nat, b: nat) -> nat {
    if a <= b {
        (b - a) as nat
    } else {
        (a - b) as nat
    }
}

/// Law: a short burst head is filled, and nothing else is: one that is being shaped, has bytes
/// but fewer than the fill band's floor, and leaves room below the band's top for a frame.
/// Of the sizes that it can be given, from a bare header more up to the band's top, it gets the
/// one that is nearest to its target.
pub proof fn law_a_short_head_is_filled_to_its_target(s: ShaperModel, size: nat)
    requires
        s.wf(),
    ensures
        s.tail_padding() > 0 <==> s.enabled && s.head && 0 < s.pending < s.head_min && s.pending
            + 7 <= s.head_max,
        s.tail_padding() > 0 ==> ({
            let filled: nat = s.pending + s.tail_padding();
            &&& s.pending + 7 <= filled <= s.head_max
            &&& s.pending + 7 <= size <= s.head_max ==> apart(filled, s.target) <= apart(
                size,
                s.target,
            )
            &&& s.pending + 7 <= s.target <= s.head_max ==> filled == s.target
            &&& s.target > s.head_max ==> filled == s.head_max
            &&& s.target < s.pending + 7 ==> filled == s.pending + 7
        }),
{
}

/// Law: a mark makes a burst head. While shaping, the record being built is one from then on;
/// between two records its size is drawn anew, from the fill band and with one step of the
/// generator, whatever came before; a record that has bytes keeps the size it aims for.
/// Nothing else moves, and while not shaping nothing does.
pub proof fn law_a_mark_draws_a_head(s: ShaperModel)
    requires
        s.wf(),
    ensures
        ({
            let marked: ShaperModel = s.mark_burst_head();
            &&& !s.enabled ==> marked == s
            &&& s.enabled ==> marked.head
            &&& s.enabled && s.pending > 0 ==> marked.target == s.target && marked.rng == s.rng
            &&& s.enabled && s.pending == 0 ==> drawn_from(s.rng, s.head_min, s.head_max, marked)
            &&& marked == (ShaperModel {
                head: marked.head,
                target: marked.target,
                rng: marked.rng,
                ..s
            })
        }),
{
    lemma_mark_burst_head(s);
    lemma_pick_target(ShaperModel { head: true, ..s });
    lemma_pick_draws(ShaperModel { head: true, ..s });
}

/// Law: an ended record is counted, with its padding, and what follows it is bulk: no burst
/// head, empty, and of a size drawn anew from the split band with one step of the generator,
/// whatever came before. Nothing else moves. Where nothing is being shaped, or no record is
/// open, nothing is ended.
pub proof fn law_an_ended_record_is_counted_and_bulk_is_drawn(s: ShaperModel, padded: nat)
    requires
        s.wf(),
        padded <= usize::MAX,
    ensures
        ({
            let next: ShaperModel = s.record_done(padded);
            &&& !s.enabled || s.pending == 0 ==> next == s
            &&& s.enabled && s.pending > 0 ==> {
                &&& next.pending == 0
                &&& !next.head
                &&& drawn_from(s.rng, s.split_min, s.split_max, next)
                &&& (next.stats.records - s.stats.records) % 0x1_0000_0000_0000_0000 == 1
                &&& (next.stats.bytes - s.stats.bytes) % 0x1_0000_0000_0000_0000 == s.pending
                &&& (next.stats.padded - s.stats.padded) % 0x1_0000_0000_0000_0000 == padded
            }
            &&& next == (ShaperModel {
                pending: next.pending,
                head: next.head,
                target: next.target,
                rng: next.rng,
                stats: next.stats,
                ..s
            })
        }),
{
    lemma_record_done(s, padded);
    if s.enabled && s.pending > 0 {
        let drawing: ShaperModel = ShaperModel {
            pending: 0,
            head: false,
            stats: s.stats.with_record(s.pending as u64, padded as u64),
            ..s
        };
        lemma_pick_target(drawing);
        lemma_pick_draws(drawing);
        crate::stats::law_a_record_is_counted_once(s.stats, s.pending as u64, padded as u64);
    }
}

/// Law: a flush ends the record with its padding in it. What it does to the shaper is what
/// counting the padding and ending the record does.
pub proof fn law_a_flush_ends_the_record_with_its_padding(s: ShaperModel)
    requires
        s.wf(),
    ensures
        ({
            let next: ShaperModel = flush_outcome(s);
            let pad: nat = s.tail_padding();
            &&& next.wf()
            &&& !s.enabled || s.pending == 0 ==> next == s
            &&& s.enabled && s.pending > 0 ==> {
                &&& next.pending == 0
                &&& !next.head
                &&& drawn_from(s.rng, s.split_min, s.split_max, next)
                &&& (next.stats.records - s.stats.records) % 0x1_0000_0000_0000_0000 == 1
                &&& (next.stats.bytes - s.stats.bytes) % 0x1_0000_0000_0000_0000 == s.pending + pad
                &&& (next.stats.padded - s.stats.padded) % 0x1_0000_0000_0000_0000 == pad
            }
            &&& next == (ShaperModel {
                pending: next.pending,
                head: next.head,
                target: next.target,
                rng: next.rng,
                stats: next.stats,
                ..s
            })
        }),
{
    let filled: ShaperModel = s.account(s.tail_padding());
    lemma_record_done(filled, s.tail_padding());
    law_an_ended_record_is_counted_and_bulk_is_drawn(filled, s.tail_padding());
}

/// Law: no size is out of reach, whatever came before. For each size in the fill band there is
/// a state of the generator from which a mark between two records gives the head that size; for
/// each size in the split band one from which ending a record gives the next that size.
pub proof fn law_every_size_can_come_next(s: ShaperModel, size: nat, padded: nat)
    requires
        s.wf(),
        s.enabled,
    ensures
        s.pending == 0 && s.head_min <= size <= s.head_max ==> exists|rng: u64|
            (#[trigger] (ShaperModel { rng, ..s }).mark_burst_head()).target == size,
        s.pending > 0 && s.split_min <= size <= s.split_max ==> exists|rng: u64|
            (#[trigger] (ShaperModel { rng, ..s }).record_done(padded)).target == size,
{
    if s.pending == 0 && s.head_min <= size <= s.head_max {
        let rng: u64 = drawing_state(
            (s.head_max - s.head_min + 1) as nat,
            (size - s.head_min) as nat,
            0,
        );
        lemma_drawing_state(s.head_min, s.head_max, size);
        assert((ShaperModel { rng, ..s }).mark_burst_head().target == size);
    }
    if s.pending > 0 && s.split_min <= size <= s.split_max {
        let rng: u64 = drawing_state(
            (s.split_max - s.split_min + 1) as nat,
            (size - s.split_min) as nat,
            0,
        );
        lemma_drawing_state(s.split_min, s.split_max, size);
        assert((ShaperModel { rng, ..s }).record_done(padded).target == size);
    }
}

/// A state from which a size is drawn.
proof fn lemma_drawing_state(lo: nat, hi: nat, size: nat)
    requires
        lo <= size <= hi <= SPLIT_MAX,
    ensures
        ({
            let rng: u64 = drawing_state((hi - lo + 1) as nat, (size - lo) as nat, 0);
            size_in(lo, hi, crate::rng::mixed(crate::rng::next_state(rng))) == size
        }),
{
    let word: u64 = (size - lo) as u64;
    let rng: u64 = drawing_state((hi - lo + 1) as nat, (size - lo) as nat, 0);
    assert(crate::rng::next_state(rng) == crate::rng::unmixed(word));
    crate::rng::lemma_mixed_unmixed(word);
    vstd::arithmetic::div_mod::lemma_small_mod(word as nat, (hi - lo + 1) as nat);
}

} // verus!
