//! What single operations do to the shaper and to the wire.

use crate::frame::{waste_frame, HEADER_SIZE};
use crate::shaper::{
    least, lemma_mark_burst_head, lemma_pick_target, lemma_record_done, ShaperModel, HEAD_MAX,
};
use crate::wire::{
    holds, joined, lemma_after_all_concat, lemma_after_all_one, lemma_flush_keeps_stream,
    lemma_flush_stream, lemma_flush_wire, lemma_write_fits, lemma_write_keeps_stream, Session,
    SessionOp, Wire,
};
use crate::write_state::{
    chunk_end, flush_outcome, flush_trace, write_outcome, write_trace, WriteAction,
};
use vstd::prelude::*;

verus! {

/// Whether the counts of a shaper are those of the records on the wire, as far as 64 bits
/// go.
pub open spec fn counted(s: ShaperModel, wire: Wire) -> bool {
    &&& s.stats.records as nat == wire.sent.len() % 0x1_0000_0000_0000_0000
    &&& s.stats.bytes as nat == joined(wire.sent).len() % 0x1_0000_0000_0000_0000
}

/// Whether `after` is `before` with records behind it, the first of `first` bytes and the
/// others of `lo` to `hi`.
pub open spec fn extends(
    before: Seq<Seq<u8>>,
    after: Seq<Seq<u8>>,
    first: nat,
    lo: nat,
    hi: nat,
) -> bool {
    &&& before.len() <= after.len()
    &&& after.take(before.len() as int) == before
    &&& before.len() < after.len() ==> after[before.len() as int].len() == first
    &&& forall|i: int|
        before.len() < i < after.len() ==> lo <= #[trigger] after[i].len() <= hi
}

/// Writing goes on with the shaper's budget: one chunk, perhaps a flush, and the rest.
pub proof fn lemma_write_unfolds(s: ShaperModel, at: usize, buf: Seq<u8>, wire: Wire)
    requires
        at < buf.len() <= usize::MAX,
    ensures
        ({
            let len: usize = buf.len() as usize;
            let to: usize = chunk_end(s, at, len);
            let written: ShaperModel = s.account((to - at) as nat);
            let mid: Wire = wire.write(buf.subrange(at as int, to as int));
            wire.after_all(write_trace(s, at, len), buf) == if written.full() {
                mid.flush().after_all(write_trace(written.record_done(0), to, len), buf)
            } else {
                mid.after_all(write_trace(written, to, len), buf)
            }
        }),
{
    let len: usize = buf.len() as usize;
    let to: usize = chunk_end(s, at, len);
    let written: ShaperModel = s.account((to - at) as nat);
    let mid: Wire = wire.write(buf.subrange(at as int, to as int));
    let first: WriteAction = WriteAction::Payload { from: at, to };
    lemma_after_all_one(wire, first, buf);
    if written.full() {
        let rest: Seq<WriteAction> = write_trace(written.record_done(0), to, len);
        lemma_after_all_concat(wire, seq![first], seq![WriteAction::Flush] + rest, buf);
        lemma_after_all_concat(mid, seq![WriteAction::Flush], rest, buf);
        lemma_after_all_one(mid, WriteAction::Flush, buf);
    } else {
        lemma_after_all_concat(wire, seq![first], write_trace(written, to, len), buf);
    }
}

/// One chunk of a write, on the shaper's side: where the record has room it is not
/// overfilled, and if it is filled, it is filled to its target.
pub proof fn lemma_chunk(s: ShaperModel, at: usize, len: usize)
    requires
        s.wf(),
        s.can_count(),
        at < len,
    ensures
        ({
            let to: usize = chunk_end(s, at, len);
            let written: ShaperModel = s.account((to - at) as nat);
            &&& at < to <= len
            &&& written.wf()
            &&& !s.enabled ==> to == len && written == s && !written.full()
            &&& s.enabled ==> written == (ShaperModel {
                pending: s.pending + (to - at) as nat,
                ..s
            }) && (s.has_room() ==> written.pending <= s.target)
            &&& s.enabled && !written.full() ==> to == len && written.has_room()
            &&& written.full() ==> {
                let next: ShaperModel = written.record_done(0);
                &&& s.enabled
                &&& s.has_room() ==> written.pending == s.target
                &&& next.wf()
                &&& next.has_room()
                &&& next.enabled
                &&& next.pending == 0
                &&& !next.head
                &&& next.configured == s.configured
                &&& next.split_min == s.split_min
                &&& next.split_max == s.split_max
                &&& next.split_min <= next.target <= next.split_max
                &&& next.stats == s.stats.with_record(written.pending as u64, 0)
            }
        }),
{
    let to: usize = chunk_end(s, at, len);
    let written: ShaperModel = s.account((to - at) as nat);
    if written.full() {
        lemma_record_done(written, 0);
        lemma_pick_target(
            ShaperModel {
                pending: 0,
                head: false,
                stats: written.stats.with_record(written.pending as u64, 0),
                ..written
            },
        );
    }
}

/// What writing the rest of a buffer does to the shaper.
pub proof fn lemma_write_state(s: ShaperModel, at: usize, len: usize)
    requires
        s.wf(),
        s.can_count(),
    ensures
        ({
            let s2: ShaperModel = write_outcome(s, at, len);
            &&& s2.wf()
            &&& s2.can_count()
            &&& s.has_room() || at < len ==> s2.has_room()
            &&& s2.configured == s.configured
            &&& s2.enabled == s.enabled
            &&& s2.split_max == s.split_max
            &&& s2.head ==> s.head
            &&& s2.stats.padded == s.stats.padded
            &&& !s.enabled ==> s2 == s
        }),
    decreases len - at,
{
    if at < len {
        let to: usize = chunk_end(s, at, len);
        let written: ShaperModel = s.account((to - at) as nat);
        lemma_chunk(s, at, len);
        if written.full() {
            lemma_write_state(written.record_done(0), to, len);
        } else {
            lemma_write_state(written, to, len);
        }
    }
}

/// Writing the rest of a buffer writes just those bytes.
pub proof fn lemma_write_stream(s: ShaperModel, at: usize, buf: Seq<u8>, wire: Wire)
    requires
        s.wf(),
        s.can_count(),
        at <= buf.len() <= usize::MAX,
    ensures
        wire.after_all(write_trace(s, at, buf.len() as usize), buf).stream() == wire.stream()
            + buf.skip(at as int),
    decreases buf.len() - at,
{
    let len: usize = buf.len() as usize;
    if at >= len {
        assert(wire.stream() + buf.skip(at as int) =~= wire.stream());
    } else {
        let to: usize = chunk_end(s, at, len);
        let chunk: Seq<u8> = buf.subrange(at as int, to as int);
        let written: ShaperModel = s.account((to - at) as nat);
        let mid: Wire = wire.write(chunk);
        lemma_chunk(s, at, len);
        lemma_write_unfolds(s, at, buf, wire);
        lemma_write_keeps_stream(wire, chunk);
        if written.full() {
            lemma_flush_keeps_stream(mid);
            lemma_write_stream(written.record_done(0), to, buf, mid.flush());
        } else {
            lemma_write_stream(written, to, buf, mid);
        }
        assert(wire.stream() + chunk + buf.skip(to as int) =~= wire.stream() + buf.skip(
            at as int,
        ));
    }
}

/// A write that does not fill a record, be it that there is room for all of it or that
/// nothing is being shaped, is one write and no flush.
pub proof fn lemma_write_short(s: ShaperModel, buf: Seq<u8>, wire: Wire)
    requires
        s.wf(),
        s.has_room(),
        buf.len() <= usize::MAX,
        s.enabled ==> s.pending + buf.len() < s.target,
    ensures
        write_outcome(s, 0, buf.len() as usize) == s.account(buf.len()),
        wire.after_all(write_trace(s, 0, buf.len() as usize), buf) == wire.write(buf),
{
    let len: usize = buf.len() as usize;
    if len > 0 {
        let to: usize = chunk_end(s, 0, len);
        let written: ShaperModel = s.account(to as nat);
        lemma_chunk(s, 0, len);
        lemma_write_unfolds(s, 0, buf, wire);
        assert(buf.subrange(0, to as int) =~= buf);
        assert(write_outcome(written, to, len) == written);
    }
}

/// Records behind records behind records.
pub proof fn lemma_extends_after_cut(
    before: Seq<Seq<u8>>,
    record: Seq<u8>,
    after: Seq<Seq<u8>>,
    first: nat,
    next: nat,
    lo: nat,
    hi: nat,
)
    requires
        record.len() == first,
        lo <= next <= hi,
        extends(before.push(record), after, next, lo, hi),
    ensures
        extends(before, after, first, lo, hi),
        after.len() > before.len(),
{
    let cut: Seq<Seq<u8>> = before.push(record);
    let prefix: Seq<Seq<u8>> = after.take(cut.len() as int);
    assert forall|i: int| 0 <= i < cut.len() implies after[i] == cut[i] by {
        assert(prefix[i] == after[i]);
    }
    assert(after.take(before.len() as int) =~= before);
    assert forall|i: int| before.len() < i < after.len() implies lo <= #[trigger] after[i].len()
        <= hi by {
        if i == cut.len() {
            assert(after[i].len() == next);
        }
    }
}

/// One more record on the wire, counted.
pub proof fn lemma_counted(s: ShaperModel, wire: Wire, padded: u64, s2: ShaperModel)
    requires
        counted(s, wire),
        wire.open.len() > 0,
        wire.open.len() <= u64::MAX,
        s2.stats == s.stats.with_record(wire.open.len() as u64, padded),
    ensures
        counted(s2, wire.flush()),
{
    let cut: Wire = wire.flush();
    assert(cut.sent.drop_last() =~= wire.sent);
    assert(joined(cut.sent).len() == joined(wire.sent).len() + wire.open.len());
}

/// A chunk that is written to a session in step waits with the rest of its record, or is sent
/// with it: the buffered writer cuts nowhere but where the shaper does.
pub proof fn lemma_chunk_waits(s: ShaperModel, chunk: Seq<u8>, wire: Wire)
    requires
        s.wf(),
        s.has_room(),
        s.enabled,
        wire.open.len() == s.pending,
        holds(wire.capacity, s.split_max),
        0 < chunk.len() <= s.target - s.pending,
    ensures
        !s.account(chunk.len()).full() ==> wire.write(chunk) == wire.append(chunk),
        s.account(chunk.len()).full() ==> wire.write(chunk).flush() == wire.append(chunk).flush(),
{
    if chunk.len() < wire.capacity {
        lemma_write_fits(wire, chunk);
    } else {
        assert(wire.open.len() == 0);
        assert(wire.open =~= Seq::empty());
        assert(wire.open + chunk =~= chunk);
    }
}

/// What writing the rest of a buffer does to the wire of a session that is being shaped.
pub proof fn lemma_write_records(s: ShaperModel, at: usize, buf: Seq<u8>, wire: Wire)
    requires
        s.wf(),
        s.has_room(),
        s.enabled,
        wire.open.len() == s.pending,
        holds(wire.capacity, s.split_max),
        at <= buf.len() <= usize::MAX,
    ensures
        ({
            let s2: ShaperModel = write_outcome(s, at, buf.len() as usize);
            let wire2: Wire = wire.after_all(write_trace(s, at, buf.len() as usize), buf);
            &&& wire2.capacity == wire.capacity
            &&& wire2.open.len() == s2.pending
            &&& extends(wire.sent, wire2.sent, s.target, s.split_min, s.split_max)
            &&& counted(s, wire) ==> counted(s2, wire2)
            &&& s.pending + (buf.len() - at) >= s.target ==> wire2.sent.len() > wire.sent.len()
            &&& wire2.sent.len() > wire.sent.len() ==> !s2.head
        }),
    decreases buf.len() - at,
{
    let len: usize = buf.len() as usize;
    let s2: ShaperModel = write_outcome(s, at, len);
    let wire2: Wire = wire.after_all(write_trace(s, at, len), buf);
    assert(wire.sent.take(wire.sent.len() as int) =~= wire.sent);
    if at < len {
        let to: usize = chunk_end(s, at, len);
        let chunk: Seq<u8> = buf.subrange(at as int, to as int);
        let written: ShaperModel = s.account((to - at) as nat);
        let mid: Wire = wire.append(chunk);
        lemma_chunk(s, at, len);
        lemma_chunk_waits(s, chunk, wire);
        lemma_write_unfolds(s, at, buf, wire);
        if written.full() {
            let next: ShaperModel = written.record_done(0);
            lemma_write_records(next, to, buf, mid.flush());
            lemma_write_state(next, to, len);
            lemma_extends_after_cut(
                wire.sent,
                mid.open,
                wire2.sent,
                s.target,
                next.target,
                s.split_min,
                s.split_max,
            );
            if counted(s, wire) {
                lemma_counted(s, mid, 0, next);
            }
        } else {
            lemma_write_records(written, to, buf, mid);
        }
    }
}

/// The wire once `buf` is written.
pub open spec fn wrote(s: ShaperModel, buf: Seq<u8>, wire: Wire) -> Wire {
    wire.after_all(write_trace(s, 0, buf.len() as usize), buf)
}

/// Writing goes on with what is left of a buffer as it would start with it.
pub proof fn lemma_write_shift(s: ShaperModel, at: usize, buf: Seq<u8>, wire: Wire)
    requires
        s.wf(),
        s.can_count(),
        at <= buf.len() <= usize::MAX,
    ensures
        write_outcome(s, at, buf.len() as usize) == write_outcome(s, 0, (buf.len() - at) as usize),
        wire.after_all(write_trace(s, at, buf.len() as usize), buf) == wrote(
            s,
            buf.skip(at as int),
            wire,
        ),
    decreases buf.len() - at,
{
    let len: usize = buf.len() as usize;
    let rest: Seq<u8> = buf.skip(at as int);
    if at == 0 {
        assert(rest =~= buf);
    } else if at < len {
        let to: usize = chunk_end(s, at, len);
        let n: usize = (to - at) as usize;
        let chunk: Seq<u8> = buf.subrange(at as int, to as int);
        let written: ShaperModel = s.account(n as nat);
        let next: ShaperModel = if written.full() {
            written.record_done(0)
        } else {
            written
        };
        let mid: Wire = if written.full() {
            wire.write(chunk).flush()
        } else {
            wire.write(chunk)
        };
        lemma_chunk(s, at, len);
        lemma_write_unfolds(s, at, buf, wire);
        lemma_write_unfolds(s, 0, rest, wire);
        assert(chunk_end(s, 0, rest.len() as usize) == n);
        assert(rest.subrange(0, n as int) =~= chunk);
        assert(rest.skip(n as int) =~= buf.skip(to as int));
        lemma_write_shift(next, to, buf, mid);
        lemma_write_shift(next, n, rest, mid);
    } else {
        assert(rest =~= Seq::empty());
    }
}

/// One chunk of a write, and what is left of it.
pub proof fn lemma_write_peels(s: ShaperModel, buf: Seq<u8>, wire: Wire)
    requires
        s.wf(),
        s.can_count(),
        0 < buf.len() <= usize::MAX,
    ensures
        ({
            let n: nat = least(s.budget(), buf.len());
            let written: ShaperModel = s.account(n);
            let next: ShaperModel = if written.full() {
                written.record_done(0)
            } else {
                written
            };
            let mid: Wire = if written.full() {
                wire.write(buf.take(n as int)).flush()
            } else {
                wire.write(buf.take(n as int))
            };
            &&& write_outcome(s, 0, buf.len() as usize) == write_outcome(
                next,
                0,
                (buf.len() - n) as usize,
            )
            &&& wrote(s, buf, wire) == wrote(next, buf.skip(n as int), mid)
        }),
{
    let len: usize = buf.len() as usize;
    let to: usize = chunk_end(s, 0, len);
    let written: ShaperModel = s.account(to as nat);
    let mid: Wire = wire.write(buf.take(to as int));
    lemma_chunk(s, 0, len);
    lemma_write_unfolds(s, 0, buf, wire);
    assert(buf.subrange(0, to as int) =~= buf.take(to as int));
    if written.full() {
        lemma_write_shift(written.record_done(0), to, buf, mid.flush());
    } else {
        lemma_write_shift(written, to, buf, mid);
    }
}

/// Writing `a`, which does not fill the record being built, and then `b` is writing the two
/// joined.
proof fn lemma_write_begins(s: ShaperModel, a: Seq<u8>, b: Seq<u8>, wire: Wire)
    requires
        s.wf(),
        s.can_count(),
        s.enabled,
        0 < a.len() < s.budget(),
        0 < b.len(),
        a.len() + b.len() <= usize::MAX,
    ensures
        write_outcome(write_outcome(s, 0, a.len() as usize), 0, b.len() as usize) == write_outcome(
            s,
            0,
            (a + b).len() as usize,
        ),
        holds(wire.capacity, s.split_max) && wire.open.len() == s.pending ==> wrote(
            write_outcome(s, 0, a.len() as usize),
            b,
            wrote(s, a, wire),
        ) == wrote(s, a + b, wire),
{
    let both: Seq<u8> = a + b;
    let begun: ShaperModel = s.account(a.len());
    let n: nat = least(begun.budget(), b.len());
    let chunk: Seq<u8> = b.take(n as int);
    lemma_chunk(s, 0, a.len() as usize);
    lemma_chunk(begun, 0, b.len() as usize);
    lemma_write_peels(s, a, wire);
    assert(a.take(a.len() as int) =~= a);
    assert(a.skip(a.len() as int) =~= Seq::empty());
    assert(write_outcome(begun, 0, 0) == begun);
    assert(write_outcome(s, 0, a.len() as usize) == begun);
    assert(wrote(s, a, wire) == wire.write(a));
    assert(least(s.budget(), both.len()) == a.len() + n);
    assert(begun.account(n) == s.account(a.len() + n));
    lemma_write_peels(begun, b, wire.write(a));
    lemma_write_peels(s, both, wire);
    assert(both.take((a.len() + n) as int) =~= a + chunk);
    assert(both.skip((a.len() + n) as int) =~= b.skip(n as int));
    if holds(wire.capacity, s.split_max) && wire.open.len() == s.pending {
        lemma_chunk_waits(s, a, wire);
        lemma_chunk_waits(begun, chunk, wire.append(a));
        lemma_chunk_waits(s, a + chunk, wire);
        assert(wire.open + a + chunk =~= wire.open + (a + chunk));
    }
}

/// Writing `a` and `b` does to the shaper what writing the two joined does; and to the wire
/// too, where the shaper has counted the bytes that wait and the buffer holds its records.
pub proof fn lemma_write_joins(s: ShaperModel, a: Seq<u8>, b: Seq<u8>, wire: Wire)
    requires
        s.wf(),
        s.can_count(),
        s.enabled,
        a.len() + b.len() <= usize::MAX,
    ensures
        write_outcome(write_outcome(s, 0, a.len() as usize), 0, b.len() as usize) == write_outcome(
            s,
            0,
            (a + b).len() as usize,
        ),
        holds(wire.capacity, s.split_max) && (s.has_room() ==> wire.open.len() == s.pending)
            ==> wrote(write_outcome(s, 0, a.len() as usize), b, wrote(s, a, wire)) == wrote(
            s,
            a + b,
            wire,
        ),
    decreases a.len(),
{
    let both: Seq<u8> = a + b;
    if a.len() == 0 {
        assert(both =~= b);
    } else if b.len() == 0 {
        assert(both =~= a);
    } else if s.budget() <= a.len() {
        let n: nat = s.budget();
        let chunk: Seq<u8> = a.take(n as int);
        let written: ShaperModel = s.account(n);
        lemma_chunk(s, 0, a.len() as usize);
        lemma_write_peels(s, a, wire);
        lemma_write_peels(s, both, wire);
        assert(both.take(n as int) =~= chunk);
        assert(both.skip(n as int) =~= a.skip(n as int) + b);
        lemma_write_keeps_stream(wire, chunk);
        lemma_write_joins(
            written.record_done(0),
            a.skip(n as int),
            b,
            wire.write(chunk).flush(),
        );
    } else {
        lemma_write_begins(s, a, b, wire);
    }
}

/// What a flush appends behind the bytes that wait.
pub open spec fn fill(s: ShaperModel) -> Seq<u8> {
    if s.tail_padding() == 0 {
        Seq::empty()
    } else {
        waste_frame(s.tail_padding())
    }
}

/// What ending a record does to the shaper.
pub proof fn lemma_flush_state(s: ShaperModel)
    requires
        s.wf(),
    ensures
        ({
            let pad: nat = s.tail_padding();
            let s2: ShaperModel = flush_outcome(s);
            &&& s2.wf()
            &&& s2.has_room()
            &&& s2.pending == 0
            &&& s2.configured == s.configured
            &&& s2.enabled == s.enabled
            &&& s2.split_max == s.split_max
            &&& s2.head ==> s.head
            &&& pad > 0 ==> s.enabled && s.head && !s2.head && HEADER_SIZE <= pad < HEAD_MAX
            &&& pad > 0 ==> s.head_min <= s.pending + pad <= s.head_max
            &&& s2.stats.padded == s.stats.padded.wrapping_add(pad as u64)
            &&& s.enabled && s.pending > 0 ==> s2.stats == s.stats.with_record(
                (s.pending + pad) as u64,
                pad as u64,
            )
            &&& !s.enabled || s.pending == 0 ==> s2 == s && pad == 0
        }),
{
    let pad: nat = s.tail_padding();
    let filled: ShaperModel = s.account(pad);
    lemma_record_done(filled, pad);
    if s.enabled && s.pending > 0 {
        lemma_pick_target(
            ShaperModel {
                pending: 0,
                head: false,
                stats: filled.stats.with_record(filled.pending as u64, pad as u64),
                ..filled
            },
        );
    }
}

/// What ending a record does to what the peer reads.
pub proof fn lemma_flush_reads(s: ShaperModel, wire: Wire)
    requires
        s.wf(),
    ensures
        wire.after_all(flush_trace(s), Seq::empty()).stream() == wire.stream() + fill(s),
        fill(s).len() == s.tail_padding(),
{
    lemma_flush_stream(wire, s);
    lemma_flush_state(s);
    if s.tail_padding() == 0 {
        assert(wire.stream() + fill(s) =~= wire.stream());
    } else {
        crate::frame::lemma_waste_frame_is_one_frame(s.tail_padding());
    }
}

/// What ending a record does to the wire: what fills the record up joins what waits, and all
/// of it is one record.
pub proof fn lemma_flush_effect(s: ShaperModel, wire: Wire)
    requires
        s.wf(),
        s.enabled ==> wire.open.len() == s.pending && holds(wire.capacity, s.split_max),
    ensures
        wire.after_all(flush_trace(s), Seq::empty()) == wire.append(fill(s)).flush(),
        fill(s).len() == s.tail_padding(),
{
    lemma_flush_wire(wire, s);
    lemma_flush_reads(s, wire);
    if s.tail_padding() == 0 {
        assert(wire.open + fill(s) =~= wire.open);
    }
}

/// What every operation keeps of a session that is being shaped: it stays in step, and its
/// counts stay those of the records on its wire.
pub proof fn lemma_step_in_step(session: Session, op: SessionOp)
    requires
        session.in_step(),
        op is Write ==> op->Write_0.len() <= usize::MAX,
    ensures
        session.step(op).in_step(),
        session.step(op).shaper.split_max == session.shaper.split_max,
        counted(session.shaper, session.wire) ==> counted(
            session.step(op).shaper,
            session.step(op).wire,
        ),
{
    let s: ShaperModel = session.shaper;
    let wire: Wire = session.wire;
    match op {
        SessionOp::Enable => {},
        SessionOp::MarkBurstHead => {
            lemma_mark_burst_head(s);
            lemma_pick_target(ShaperModel { head: true, ..s });
        },
        SessionOp::Write(buf) => {
            lemma_write_state(s, 0, buf.len() as usize);
            lemma_write_records(s, 0, buf, wire);
        },
        SessionOp::Flush => {
            lemma_flush_state(s);
            lemma_flush_effect(s, wire);
            if s.pending > 0 && counted(s, wire) {
                lemma_counted(s, wire.append(fill(s)), s.tail_padding() as u64, flush_outcome(s));
            }
        },
    }
}

} // verus!
