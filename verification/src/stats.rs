//! What shaping has cost a session so far.

use vstd::prelude::*;

verus! {

/// Snapshot of [`ShapingCounters`].
#[derive(Debug, Clone, Copy, PartialEq, Eq, Structural)]
pub struct ShapingStats {
    /// Number of TLS records emitted while shaping was active.
    pub records: u64,
    /// Total plaintext bytes emitted, padding and all.
    pub bytes: u64,
    /// Plaintext bytes that were padding, i.e. the cost of the feature.
    pub padded: u64,
}

impl ShapingStats {
    /// The counts of a session that has emitted nothing.
    pub open spec fn zero() -> Self {
        ShapingStats { records: 0, bytes: 0, padded: 0 }
    }

    /// These counts with one more record of `bytes` bytes, `padded` of them padding. Each
    /// count wraps at 64 bits.
    pub open spec fn with_record(self, bytes: u64, padded: u64) -> Self {
        ShapingStats {
            records: self.records.wrapping_add(1),
            bytes: self.bytes.wrapping_add(bytes),
            padded: self.padded.wrapping_add(padded),
        }
    }

    /// Total minus padding, or zero where padding exceeds the total.
    pub open spec fn spec_real_bytes(self) -> u64 {
        if self.bytes >= self.padded {
            (self.bytes - self.padded) as u64
        } else {
            0
        }
    }

    /// Payload bytes the tunnel actually carried (total minus padding).
    pub fn real_bytes(&self) -> (payload: u64)
        ensures
            payload == self.spec_real_bytes(),
    {
        self.bytes.saturating_sub(self.padded)
    }

    /// Padding over the tunnel's own payload, as numerator and denominator; `0 / 1` when
    /// there is no payload, so that the denominator is never zero.
    pub fn padding_fraction(&self) -> (fraction: (u64, u64))
        ensures
            fraction.1 > 0,
            fraction == if self.spec_real_bytes() == 0 {
                (0u64, 1u64)
            } else {
                (self.padded, self.spec_real_bytes())
            },
            self.padded < self.bytes ==> fraction.0 == self.padded && fraction.1 + self.padded
                == self.bytes,
            self.padded >= self.bytes ==> fraction.0 == 0,
    {
        let payload: u64 = self.real_bytes();
        if payload == 0 {
            return (0, 1);
        }
        (self.padded, payload)
    }
}

/// Per-session shaping counters, as the shaper keeps them. A session owner that reports the
/// overhead without the write lock is handed snapshots.
#[derive(Debug)]
pub struct ShapingCounters {
    records: u64,
    bytes: u64,
    padded: u64,
}

impl View for ShapingCounters {
    type V = ShapingStats;

    closed spec fn view(&self) -> ShapingStats {
        ShapingStats { records: self.records, bytes: self.bytes, padded: self.padded }
    }
}

impl Default for ShapingCounters {
    fn default() -> (counters: Self)
        ensures
            counters@ == ShapingStats::zero(),
    {
        ShapingCounters { records: 0, bytes: 0, padded: 0 }
    }
}

impl ShapingCounters {
    /// The counts as they stand.
    pub fn snapshot(&self) -> (stats: ShapingStats)
        ensures
            stats == self@,
    {
        ShapingStats { records: self.records, bytes: self.bytes, padded: self.padded }
    }

    /// Counts one record of `bytes` bytes, `padded` of them padding.
    pub(crate) fn count_record(&mut self, bytes: u64, padded: u64)
        ensures
            final(self)@ == old(self)@.with_record(bytes, padded),
    {
        self.records = self.records.wrapping_add(1);
        self.bytes = self.bytes.wrapping_add(bytes);
        self.padded = self.padded.wrapping_add(padded);
    }
}

/// Law: padding and payload are the whole. Where the padding does not exceed the total, the
/// payload is what makes it up to it; where it does, as wrapped counts can, there is none.
pub proof fn law_payload_and_padding_are_the_whole(stats: ShapingStats)
    ensures
        stats.padded <= stats.bytes ==> stats.spec_real_bytes() + stats.padded == stats.bytes,
        stats.padded > stats.bytes ==> stats.spec_real_bytes() == 0,
{
}

/// Law: a record is counted once, with all its bytes, modulo 2^64.
pub proof fn law_a_record_is_counted_once(stats: ShapingStats, bytes: u64, padded: u64)
    ensures
        ({
            let after: ShapingStats = stats.with_record(bytes, padded);
            &&& (after.records - stats.records) % 0x1_0000_0000_0000_0000 == 1
            &&& (after.bytes - stats.bytes) % 0x1_0000_0000_0000_0000 == bytes
            &&& (after.padded - stats.padded) % 0x1_0000_0000_0000_0000 == padded
        }),
        ShapingStats::zero().records == 0 && ShapingStats::zero().bytes == 0
            && ShapingStats::zero().padded == 0,
{
}

} // verus!
