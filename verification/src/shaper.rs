//! The shaper: how many plaintext bytes go into each downlink record.

use crate::decisions::{
    drawn_from, law_a_mark_draws_a_head, law_a_new_shaper_waits,
    law_an_ended_record_is_counted_and_bulk_is_drawn,
};
use crate::frame::HEADER_SIZE;
use crate::rng::{fresh_seed, mix, GAMMA};
use crate::stats::{ShapingCounters, ShapingStats};
use vstd::prelude::*;

verus! {

/// Smallest plaintext size a burst-head record is filled up to.
///
/// 320 B is where a record stops looking like a control marker and starts
/// looking like the tail of a TLS handshake flight (a certificate fragment).
pub const HEAD_MIN: usize = 320;

/// Largest plaintext size a burst-head record is allowed to have.
///
/// Deliberately modest, and below [`SPLIT_MAX`]: a head is filled once per
/// proxied connection, so it is the expensive lever and only has to stop being
/// tiny. The spread over [`HEAD_MIN`] keeps heads from forming a recognisable
/// constant size.
pub const HEAD_MAX: usize = 1400;

/// Smallest plaintext size a bulk record is cut down to.
pub const SPLIT_MIN: usize = 1024;

/// Largest plaintext size a bulk record is allowed to have.
///
/// Far below the 16 KiB TLS record limit on purpose: full-size outer records
/// are what an observer expects to see when the inner TLS stream sends full-size
/// records, and keeping every record under the band top breaks that
/// correspondence.
pub const SPLIT_MAX: usize = 2560;

/// A `Waste` frame is `HEADER_SIZE` bytes of header plus a payload; the
/// smallest useful one is a bare header.
pub const MIN_WASTE_FRAME: usize = HEADER_SIZE;

/// The lesser of two sizes.
pub open spec fn least(a: nat, b: nat) -> nat {
    if a <= b {
        a
    } else {
        b
    }
}

/// The top of a band whose top would be `hi`, in a buffer of `capacity` bytes. A band never
/// vanishes: a buffer of no bytes counts as one of a single byte.
pub open spec fn band_top(hi: nat, capacity: nat) -> nat {
    if capacity == 0 {
        least(hi, 1)
    } else {
        least(hi, capacity)
    }
}

/// The band `[lo, hi]`, cut off at a buffer of `capacity` bytes.
pub open spec fn clamped(lo: nat, hi: nat, capacity: nat) -> (nat, nat) {
    (least(lo, band_top(hi, capacity)), band_top(hi, capacity))
}

/// The size in `[lo, hi]` that the word `word` picks.
pub open spec fn size_in(lo: nat, hi: nat, word: u64) -> nat {
    lo + word as nat % ((hi - lo + 1) as nat)
}

/// A shaper in the abstract.
pub struct ShaperModel {
    /// The operator's flag.
    pub configured: bool,
    /// The live switch.
    pub enabled: bool,
    /// Bytes in the record being built.
    pub pending: nat,
    /// Size that the record being built aims for.
    pub target: nat,
    /// Whether the record being built starts a burst.
    pub head: bool,
    pub head_min: nat,
    pub head_max: nat,
    pub split_min: nat,
    pub split_max: nat,
    /// State of the generator that the sizes come from.
    pub rng: u64,
    /// Counts of what was emitted.
    pub stats: ShapingStats,
}

impl ShaperModel {
    /// What holds of every shaper.
    ///
    /// The two bands are the constants, cut off at one and the same buffer capacity. The
    /// target lies in the band that the record is drawn from. A shaper that is not shaping
    /// is as it was made.
    pub open spec fn wf(self) -> bool {
        &&& 1 <= self.split_max <= SPLIT_MAX
        &&& self.split_min == least(SPLIT_MIN as nat, self.split_max)
        &&& self.head_max == least(HEAD_MAX as nat, self.split_max)
        &&& self.head_min == least(HEAD_MIN as nat, self.head_max)
        &&& self.head_min <= self.target <= self.split_max
        &&& self.head && self.pending == 0 ==> self.target <= self.head_max
        &&& !self.head ==> self.split_min <= self.target
        &&& self.pending <= usize::MAX
        &&& self.enabled ==> self.configured
        &&& !self.enabled ==> self.head && self.pending == 0 && self.stats
            == ShapingStats::zero()
    }

    /// Whether the record being built still has room, as it has whenever a record is ended
    /// as soon as it is full.
    pub open spec fn has_room(self) -> bool {
        self.enabled ==> self.pending < self.target
    }

    /// Whether the count of the record being built can take one more byte.
    pub open spec fn can_count(self) -> bool {
        self.enabled ==> self.pending < usize::MAX
    }

    /// The state with the next record's size drawn, from the fill band for a burst head and
    /// from the split band otherwise. A band of one size takes no draw.
    pub open spec fn pick_target(self) -> Self {
        let (lo, hi): (nat, nat) = if self.head {
            (self.head_min, self.head_max)
        } else {
            (self.split_min, self.split_max)
        };
        if hi <= lo {
            ShaperModel { target: lo, ..self }
        } else {
            let rng: u64 = crate::rng::next_state(self.rng);
            ShaperModel { target: size_in(lo, hi, crate::rng::mixed(rng)), rng, ..self }
        }
    }

    /// A new shaper: not shaping yet, at the head of the session's first burst.
    pub open spec fn seeded(configured: bool, capacity: nat, rng: u64) -> Self {
        let (head_min, head_max): (nat, nat) = clamped(HEAD_MIN as nat, HEAD_MAX as nat, capacity);
        let (split_min, split_max): (nat, nat) = clamped(
            SPLIT_MIN as nat,
            SPLIT_MAX as nat,
            capacity,
        );
        ShaperModel {
            configured,
            enabled: false,
            pending: 0,
            target: head_max,
            head: true,
            head_min,
            head_max,
            split_min,
            split_max,
            rng,
            stats: ShapingStats::zero(),
        }.pick_target()
    }

    /// The state once the peer has announced that it takes padding.
    pub open spec fn enable(self) -> Self {
        ShaperModel { enabled: self.configured, ..self }
    }

    /// Bytes that may be written before the record must be ended: what is left to the
    /// target, but at least one; no limit when not shaping.
    pub open spec fn budget(self) -> nat {
        if !self.enabled {
            usize::MAX as nat
        } else if self.pending < self.target {
            (self.target - self.pending) as nat
        } else {
            1
        }
    }

    /// The state with `n` more bytes in the record being built.
    pub open spec fn account(self, n: nat) -> Self {
        if self.enabled {
            ShaperModel { pending: self.pending + n, ..self }
        } else {
            self
        }
    }

    /// Whether the record being built has reached its target and must be ended.
    pub open spec fn full(self) -> bool {
        self.enabled && self.pending >= self.target
    }

    /// Padding that ending the record now would add: nothing, unless the record is a burst
    /// head that is short of the fill band and a `Waste` frame fits below the band's top.
    /// Where it is filled, the record is brought up to its target, or as near as the frame's
    /// least size and the band's top let it.
    pub open spec fn tail_padding(self) -> nat {
        if !self.enabled || !self.head || self.pending == 0 || self.pending >= self.head_min
            || self.pending + MIN_WASTE_FRAME > self.head_max {
            0
        } else if self.pending + MIN_WASTE_FRAME > self.target {
            MIN_WASTE_FRAME as nat
        } else if self.target > self.head_max {
            (self.head_max - self.pending) as nat
        } else {
            (self.target - self.pending) as nat
        }
    }

    /// The state with the record being built, or the next one, marked as a burst head. A
    /// record that has bytes in it keeps its target.
    pub open spec fn mark_burst_head(self) -> Self {
        if !self.enabled {
            self
        } else if self.pending == 0 {
            (ShaperModel { head: true, ..self }).pick_target()
        } else {
            ShaperModel { head: true, ..self }
        }
    }

    /// The state after a record was ended, `padded` of whose bytes were padding: the record
    /// is counted, and the next one is drawn as bulk.
    pub open spec fn record_done(self, padded: nat) -> Self {
        if !self.enabled || self.pending == 0 {
            self
        } else {
            (ShaperModel {
                pending: 0,
                head: false,
                stats: self.stats.with_record(self.pending as u64, padded as u64),
                ..self
            }).pick_target()
        }
    }
}

/// A drawn size lies in its band.
pub proof fn lemma_size_in_band(lo: nat, hi: nat, word: u64)
    requires
        lo <= hi,
    ensures
        lo <= size_in(lo, hi, word) <= hi,
{
    vstd::arithmetic::div_mod::lemma_mod_bound(word as int, hi - lo + 1);
}

/// Drawing a target puts it into the band it is drawn from and touches nothing but it and
/// the generator.
pub proof fn lemma_pick_target(s: ShaperModel)
    requires
        s.head_min <= s.head_max,
        s.split_min <= s.split_max,
    ensures
        s.head ==> s.head_min <= s.pick_target().target <= s.head_max,
        !s.head ==> s.split_min <= s.pick_target().target <= s.split_max,
        s.pick_target() == (ShaperModel {
            target: s.pick_target().target,
            rng: s.pick_target().rng,
            ..s
        }),
{
    let word: u64 = crate::rng::mixed(crate::rng::next_state(s.rng));
    lemma_size_in_band(s.head_min, s.head_max, word);
    lemma_size_in_band(s.split_min, s.split_max, word);
}

/// A new shaper is well-formed, its bands are the constants cut off at the capacity, and
/// its first target is a head's.
pub proof fn lemma_seeded(configured: bool, capacity: nat, rng: u64)
    ensures
        ShaperModel::seeded(configured, capacity, rng).wf(),
{
    let head_max: nat = band_top(HEAD_MAX as nat, capacity);
    let split_max: nat = band_top(SPLIT_MAX as nat, capacity);
    lemma_pick_target(
        ShaperModel {
            configured,
            enabled: false,
            pending: 0,
            target: head_max,
            head: true,
            head_min: least(HEAD_MIN as nat, head_max),
            head_max,
            split_min: least(SPLIT_MIN as nat, split_max),
            split_max,
            rng,
            stats: ShapingStats::zero(),
        },
    );
}

/// Marking a burst head keeps a shaper well-formed.
pub proof fn lemma_mark_burst_head(s: ShaperModel)
    requires
        s.wf(),
    ensures
        s.mark_burst_head().wf(),
        s.has_room() ==> s.mark_burst_head().has_room(),
        s.can_count() ==> s.mark_burst_head().can_count(),
{
    lemma_pick_target(ShaperModel { head: true, ..s });
}

/// Ending a record keeps a shaper well-formed and gives the next record room.
pub proof fn lemma_record_done(s: ShaperModel, padded: nat)
    requires
        s.wf(),
    ensures
        s.record_done(padded).wf(),
        s.record_done(padded).has_room(),
        s.record_done(padded).pending == 0,
{
    if s.enabled && s.pending > 0 {
        lemma_pick_target(
            ShaperModel {
                pending: 0,
                head: false,
                stats: s.stats.with_record(s.pending as u64, padded as u64),
                ..s
            },
        );
    }
}

/// Decides the size of each downlink TLS record.
///
/// Holds no buffers: it only tracks how many plaintext bytes are in the record
/// currently being built and what size the next one should aim for.
#[derive(Debug)]
pub struct DownlinkShaper {
    /// The operator's flag. Shaping can happen only when this is set.
    configured: bool,
    /// The live switch: `configured` **and** the peer announced v2.
    enabled: bool,
    /// Plaintext bytes already handed to the writer for the current record.
    pending: usize,
    /// Plaintext size the current record aims for.
    target: usize,
    /// The record being built starts a burst, so it may be filled up to the
    /// band floor with a `Waste` frame.
    head: bool,
    head_min: usize,
    head_max: usize,
    split_min: usize,
    split_max: usize,
    rng: u64,
    counters: ShapingCounters,
}

impl View for DownlinkShaper {
    type V = ShaperModel;

    closed spec fn view(&self) -> ShaperModel {
        ShaperModel {
            configured: self.configured,
            enabled: self.enabled,
            pending: self.pending as nat,
            target: self.target as nat,
            head: self.head,
            head_min: self.head_min as nat,
            head_max: self.head_max as nat,
            split_min: self.split_min as nat,
            split_max: self.split_max as nat,
            rng: self.rng,
            stats: self.counters@,
        }
    }
}

impl DownlinkShaper {
    /// What holds of every shaper.
    pub open spec fn wf(&self) -> bool {
        self@.wf()
    }

    /// A shaper over a buffer of `buf_capacity` bytes, for session number `session` of a
    /// process whose one reading of the clock is `epoch`.
    pub fn new(
        configured: bool,
        buf_capacity: usize,
        epoch: Option<u128>,
        session: u64,
    ) -> (shaper: Self)
        ensures
            shaper.wf(),
            shaper@ == ShaperModel::seeded(
                configured,
                buf_capacity as nat,
                crate::rng::session_seed(epoch, session),
            ),
            !shaper@.enabled,
            shaper@.configured == configured,
            shaper@.pending == 0,
            shaper@.head,
    {
        Self::with_seed(configured, buf_capacity, fresh_seed(epoch, session))
    }

    /// Seedable constructor, for a reproducible record sequence.
    pub fn with_seed(configured: bool, buf_capacity: usize, rng: u64) -> (shaper: Self)
        ensures
            shaper.wf(),
            shaper@ == ShaperModel::seeded(configured, buf_capacity as nat, rng),
            !shaper@.enabled,
            shaper@.configured == configured,
            shaper@.pending == 0,
            shaper@.head,
            drawn_from(rng, shaper@.head_min, shaper@.head_max, shaper@),
    {
        // A record can never be larger than the buffer: a buffered writer
        // bypasses its buffer (and therefore the flush boundaries chosen here)
        // for any single write bigger than the capacity, which would hand the
        // TLS layer one oversized record behind the shaper's back.
        let (head_min, head_max): (usize, usize) = clamp_band(HEAD_MIN, HEAD_MAX, buf_capacity);
        let (split_min, split_max): (usize, usize) = clamp_band(
            SPLIT_MIN,
            SPLIT_MAX,
            buf_capacity,
        );
        let mut shaper = DownlinkShaper {
            configured,
            enabled: false,
            pending: 0,
            target: head_max,
            // The session head is a burst head: the first downlink records are
            // the settings response, which is exactly the tiny-record giveaway.
            head: true,
            head_min,
            head_max,
            split_min,
            split_max,
            rng,
            counters: ShapingCounters::default(),
        };
        shaper.pick_target();
        proof {
            law_a_new_shaper_waits(configured, buf_capacity as nat, rng);
        }
        shaper
    }

    /// Start shaping. Called once the peer has announced protocol v2, under the
    /// same write lock as the first shaped record.
    ///
    /// A no-op when the operator disabled the feature, so an operator switch is
    /// never overridden by a peer's announcement.
    pub fn enable(&mut self)
        requires
            old(self).wf(),
        ensures
            final(self).wf(),
            final(self)@ == old(self)@.enable(),
            final(self)@.enabled == old(self)@.configured,
    {
        self.enabled = self.configured;
    }

    /// The operator's flag.
    pub fn is_configured(&self) -> (configured: bool)
        ensures
            configured == self@.configured,
    {
        self.configured
    }

    /// Whether records are being shaped.
    pub fn is_enabled(&self) -> (enabled: bool)
        ensures
            enabled == self@.enabled,
    {
        self.enabled
    }

    /// Counts of what was emitted while shaping.
    pub fn counters(&self) -> (counters: &ShapingCounters)
        ensures
            counters@ == self@.stats,
    {
        &self.counters
    }

    /// Plaintext bytes that may be handed to the writer before the current
    /// record must be flushed. `usize::MAX` when shaping is off.
    pub fn write_budget(&self) -> (budget: usize)
        requires
            self.wf(),
        ensures
            budget == self@.budget(),
            budget >= 1,
            !self@.enabled ==> budget == usize::MAX,
            self@.enabled && self@.pending < self@.target ==> self@.pending + budget
                == self@.target,
            self@.enabled && self@.pending >= self@.target ==> budget == 1,
    {
        if !self.enabled {
            return usize::MAX;
        }
        let left: usize = self.target.saturating_sub(self.pending);
        if left >= 1 {
            left
        } else {
            1
        }
    }

    /// Account for `n` plaintext bytes just handed to the writer. Returns
    /// `true` when the record reached its target and must be flushed now.
    pub fn account(&mut self, n: usize) -> (full: bool)
        requires
            old(self).wf(),
            old(self)@.enabled ==> old(self)@.pending + n <= usize::MAX,
        ensures
            final(self).wf(),
            final(self)@ == old(self)@.account(n as nat),
            full == final(self)@.full(),
            full <==> old(self)@.enabled && old(self)@.pending + n >= old(self)@.target,
            old(self)@.enabled ==> final(self)@.pending == old(self)@.pending + n,
    {
        if !self.enabled {
            return false;
        }
        self.pending = self.pending + n;
        self.pending >= self.target
    }

    /// Plaintext bytes in the record being built.
    pub fn pending(&self) -> (pending: usize)
        ensures
            pending == self@.pending,
    {
        self.pending
    }

    /// Plaintext size the record being built aims for.
    pub fn target(&self) -> (target: usize)
        ensures
            target == self@.target,
    {
        self.target
    }

    /// The band that burst heads are filled into, as its least and its greatest size.
    pub fn head_band(&self) -> (band: (usize, usize))
        ensures
            band.0 == self@.head_min,
            band.1 == self@.head_max,
    {
        (self.head_min, self.head_max)
    }

    /// The band that bulk records are cut into, as its least and its greatest size.
    pub fn split_band(&self) -> (band: (usize, usize))
        ensures
            band.0 == self@.split_min,
            band.1 == self@.split_max,
    {
        (self.split_min, self.split_max)
    }

    /// Bytes of padding to append before flushing the current record, so that a
    /// burst head lands inside the fill band. `0` means "do not pad".
    ///
    /// The returned count has the `Waste` frame's header in it. Padding is only
    /// ever appended behind *complete* frames.
    pub fn tail_padding(&self) -> (padding: usize)
        requires
            self.wf(),
        ensures
            padding == self@.tail_padding(),
            padding == 0 || MIN_WASTE_FRAME <= padding < HEAD_MAX,
            padding > 0 ==> self@.head_min <= self@.pending + padding <= self@.head_max,
            padding > 0 <==> self@.enabled && self@.head && 0 < self@.pending < self@.head_min
                && self@.pending + HEADER_SIZE <= self@.head_max,
            padding > 0 && self@.pending + HEADER_SIZE <= self@.target <= self@.head_max
                ==> self@.pending + padding == self@.target,
            padding > 0 && self@.target > self@.head_max ==> self@.pending + padding
                == self@.head_max,
            padding > 0 && self@.target < self@.pending + HEADER_SIZE ==> padding == HEADER_SIZE,
    {
        if !self.enabled || !self.head || self.pending == 0 || self.pending >= self.head_min {
            return 0;
        }
        let cap: usize = self.head_max.saturating_sub(self.pending);
        if cap < MIN_WASTE_FRAME {
            return 0;
        }
        let want: usize = self.target.saturating_sub(self.pending);
        if want < MIN_WASTE_FRAME {
            MIN_WASTE_FRAME
        } else if want > cap {
            cap
        } else {
            want
        }
    }

    /// Mark the next record as a burst head: the session start, or a `SynAck`
    /// (the head of a proxied connection's downlink burst).
    pub fn mark_burst_head(&mut self)
        requires
            old(self).wf(),
        ensures
            final(self).wf(),
            final(self)@ == old(self)@.mark_burst_head(),
            old(self)@.enabled ==> final(self)@.head,
            old(self)@.enabled && old(self)@.pending == 0 ==> drawn_from(
                old(self)@.rng,
                old(self)@.head_min,
                old(self)@.head_max,
                final(self)@,
            ),
    {
        proof {
            lemma_mark_burst_head(self@);
            law_a_mark_draws_a_head(self@);
        }
        if !self.enabled {
            return;
        }
        self.head = true;
        // Mid-record, the size was already drawn; only a fresh record gets to
        // pick from the fill band.
        if self.pending == 0 {
            self.pick_target();
        }
    }

    /// Finish the record that was just flushed. `padded` is how many of its
    /// bytes were padding.
    pub fn record_done(&mut self, padded: usize)
        requires
            old(self).wf(),
        ensures
            final(self).wf(),
            final(self)@ == old(self)@.record_done(padded as nat),
            old(self)@.enabled && old(self)@.pending > 0 ==> {
                &&& final(self)@.pending == 0
                &&& !final(self)@.head
                &&& drawn_from(
                    old(self)@.rng,
                    old(self)@.split_min,
                    old(self)@.split_max,
                    final(self)@,
                )
            },
    {
        proof {
            lemma_record_done(self@, padded as nat);
            law_an_ended_record_is_counted_and_bulk_is_drawn(self@, padded as nat);
        }
        if !self.enabled || self.pending == 0 {
            return;
        }
        self.counters.count_record(self.pending as u64, padded as u64);
        self.pending = 0;
        self.head = false;
        self.pick_target();
    }

    /// Draws the size that the record about to be built aims for.
    fn pick_target(&mut self)
        requires
            old(self)@.head_min <= old(self)@.head_max <= HEAD_MAX,
            old(self)@.split_min <= old(self)@.split_max <= SPLIT_MAX,
        ensures
            final(self)@ == old(self)@.pick_target(),
    {
        let (lo, hi): (usize, usize) = if self.head {
            (self.head_min, self.head_max)
        } else {
            (self.split_min, self.split_max)
        };
        self.target = self.range(lo, hi);
    }

    /// A size in `[lo, hi]`, both ends possible; `lo`, without a draw, where that leaves no
    /// choice.
    fn range(&mut self, lo: usize, hi: usize) -> (size: usize)
        requires
            hi - lo < usize::MAX,
        ensures
            final(self)@ == (ShaperModel {
                rng: if hi <= lo {
                    old(self)@.rng
                } else {
                    crate::rng::next_state(old(self)@.rng)
                },
                ..old(self)@
            }),
            size == if hi <= lo {
                lo as nat
            } else {
                size_in(
                    lo as nat,
                    hi as nat,
                    crate::rng::mixed(crate::rng::next_state(old(self)@.rng)),
                )
            },
    {
        if hi <= lo {
            return lo;
        }
        let span: u64 = (hi - lo + 1) as u64;
        let word: u64 = self.next_u64();
        proof {
            lemma_size_in_band(lo as nat, hi as nat, word);
        }
        lo + (word % span) as usize
    }

    /// splitmix64. Small, allocation-free, and `Send`, so that the generator can
    /// live in a value that is held across a suspension point and shared behind
    /// a lock.
    fn next_u64(&mut self) -> (word: u64)
        ensures
            final(self)@ == (ShaperModel {
                rng: crate::rng::next_state(old(self)@.rng),
                ..old(self)@
            }),
            word == crate::rng::mixed(final(self)@.rng),
    {
        self.rng = self.rng.wrapping_add(GAMMA);
        mix(self.rng)
    }
}

/// Clamp a band into the buffer's capacity, keeping the floor no higher than the top. A buffer
/// of no bytes counts as one of a single byte, and a band that fits is left as it is.
pub fn clamp_band(lo: usize, hi: usize, buf_capacity: usize) -> (band: (usize, usize))
    ensures
        (band.0 as nat, band.1 as nat) == clamped(lo as nat, hi as nat, buf_capacity as nat),
        band.0 <= band.1,
        band.0 <= lo,
        band.1 <= hi,
        buf_capacity >= 1 ==> band.1 <= buf_capacity,
        band.0 == lo || band.0 == band.1,
        band.1 == hi || band.1 == buf_capacity || buf_capacity == 0 && band.1 == 1,
        lo <= hi <= buf_capacity ==> band == (lo, hi),
{
    let room: usize = if buf_capacity >= 1 {
        buf_capacity
    } else {
        1
    };
    let top: usize = if hi <= room {
        hi
    } else {
        room
    };
    if lo <= top {
        (lo, top)
    } else {
        (top, top)
    }
}

} // verus!
