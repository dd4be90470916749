//! What a session's records cost on the wire.

use vstd::prelude::*;

verus! {

/// TLS 1.3 record framing added to every emitted record: 5-byte record header,
/// 1-byte inner content type, 16-byte AEAD tag. Record sizes are plaintext
/// payload; with this they are what an observer actually counts on the wire.
pub const TLS_RECORD_OVERHEAD: usize = 22;

/// The sum of `sizes`.
pub open spec fn total(sizes: Seq<usize>) -> nat
    decreases sizes.len(),
{
    if sizes.len() == 0 {
        0
    } else {
        total(sizes.drop_last()) + sizes.last() as nat
    }
}

/// The first sizes sum to no more than all of them.
proof fn lemma_total_of_prefix(sizes: Seq<usize>, n: int)
    requires
        0 <= n <= sizes.len(),
    ensures
        total(sizes.take(n)) <= total(sizes),
    decreases sizes.len() - n,
{
    if n == sizes.len() {
        assert(sizes.take(n) =~= sizes);
    } else {
        assert(sizes.take(n + 1).drop_last() =~= sizes.take(n));
        lemma_total_of_prefix(sizes, n + 1);
    }
}

/// Bytes on the wire for records of `sizes` plaintext bytes: the plaintext and the framing
/// of each record.
pub fn wire_bytes(sizes: &[usize]) -> (wire: u64)
    requires
        total(sizes@) + TLS_RECORD_OVERHEAD * sizes@.len() <= u64::MAX,
    ensures
        wire == total(sizes@) + TLS_RECORD_OVERHEAD * sizes@.len(),
        forall|i: int| 0 <= i < sizes@.len() ==> #[trigger] sizes@[i] + TLS_RECORD_OVERHEAD <= wire,
{
    let mut wire: u64 = 0;
    let mut i: usize = 0;
    while i < sizes.len()
        invariant
            i <= sizes@.len(),
            total(sizes@) + TLS_RECORD_OVERHEAD * sizes@.len() <= u64::MAX,
            wire == total(sizes@.take(i as int)) + TLS_RECORD_OVERHEAD * i,
        decreases sizes@.len() - i,
    {
        proof {
            assert(sizes@.take(i + 1).drop_last() =~= sizes@.take(i as int));
            lemma_total_of_prefix(sizes@, i + 1);
        }
        wire = wire + sizes[i] as u64 + TLS_RECORD_OVERHEAD as u64;
        i = i + 1;
    }
    assert(sizes@.take(i as int) =~= sizes@);
    proof {
        assert forall|i: int| 0 <= i < sizes@.len() implies #[trigger] sizes@[i]
            + TLS_RECORD_OVERHEAD <= wire by {
            lemma_total_of_prefix(sizes@, i + 1);
            assert(sizes@.take(i + 1).last() == sizes@[i]);
        }
    }
    wire
}

/// Law: plaintext adds up. Nothing sums to nothing, one size to itself, and two runs of sizes
/// to what each of them does.
pub proof fn law_sizes_add_up(a: Seq<usize>, b: Seq<usize>, size: usize)
    ensures
        total(Seq::empty()) == 0,
        total(seq![size]) == size,
        total(a + b) == total(a) + total(b),
    decreases b.len(),
{
    assert(seq![size].drop_last() =~= Seq::<usize>::empty());
    assert(total(seq![size].drop_last()) == 0);
    if b.len() == 0 {
        assert(a + b =~= a);
    } else {
        assert((a + b).drop_last() =~= a + b.drop_last());
        law_sizes_add_up(a, b.drop_last(), size);
    }
}

} // verus!
