//! What holds of whole operations and of whole sessions.

use crate::effects::{
    counted, extends, fill, lemma_flush_effect, lemma_flush_reads, lemma_flush_state,
    lemma_step_in_step, lemma_write_joins, lemma_write_records, lemma_write_short,
    lemma_write_state, lemma_write_stream,
};
use crate::frame::{frames, is_waste, real_frames, waste_frame, HEADER_SIZE};
use crate::shaper::{
    band_top, clamped, least, lemma_mark_burst_head, lemma_pick_target, lemma_seeded, size_in,
    DownlinkShaper, ShaperModel, HEAD_MAX, HEAD_MIN, SPLIT_MAX, SPLIT_MIN,
};
use crate::stats::ShapingStats;
use crate::wire::{
    holds, joined, lemma_write_fits, marks, plain_run, writable, written, Session, SessionOp, Wire,
};
use crate::write_state::flush_outcome;
use vstd::prelude::*;

verus! {

/// Of operations that can be carried out, so can all but the last, and the last.
proof fn lemma_writable(ops: Seq<SessionOp>)
    requires
        writable(ops),
        ops.len() > 0,
    ensures
        writable(ops.drop_last()),
        ops.last() is Write ==> ops.last()->Write_0.len() <= usize::MAX,
{
    let earlier: Seq<SessionOp> = ops.drop_last();
    assert forall|i: int| 0 <= i < earlier.len() implies match #[trigger] earlier[i] {
        SessionOp::Write(buf) => buf.len() <= usize::MAX,
        _ => true,
    } by {
        assert(earlier[i] == ops[i]);
    }
    assert(ops.last() == ops[ops.len() - 1]);
}

/// Law: a write neither adds nor drops bytes. Whatever it does to records, what the peer
/// reads is what it read before, with the buffer behind it, and none of it is padding.
pub proof fn law_write_is_verbatim(session: Session, buf: Seq<u8>)
    requires
        session.shaper.wf(),
        session.shaper.can_count(),
        buf.len() <= usize::MAX,
    ensures
        session.step(SessionOp::Write(buf)).wire.stream() == session.wire.stream() + buf,
        session.step(SessionOp::Write(buf)).shaper.stats.padded == session.shaper.stats.padded,
        session.step(SessionOp::Write(buf)).padding == session.padding,
{
    lemma_write_state(session.shaper, 0, buf.len() as usize);
    lemma_write_stream(session.shaper, 0, buf, session.wire);
    assert(buf.skip(0) =~= buf);
}

/// Law: a write ends the record being built when it has just the size it aims for, and each
/// further one at a size in the split band. What is left waits in a record with room.
pub proof fn law_write_cuts_at_targets(session: Session, buf: Seq<u8>)
    requires
        session.in_step(),
        buf.len() <= usize::MAX,
    ensures
        session.step(SessionOp::Write(buf)).in_step(),
        extends(
            session.wire.sent,
            session.step(SessionOp::Write(buf)).wire.sent,
            session.shaper.target,
            session.shaper.split_min,
            session.shaper.split_max,
        ),
{
    lemma_step_in_step(session, SessionOp::Write(buf));
    lemma_write_records(session.shaper, 0, buf, session.wire);
}

/// Law: how a payload is divided into writes does not show. Writing `a` and then `b` leaves
/// the shaper as writing the two joined does, with its counts. While a session is shaped it
/// leaves the wire so too: the same records, byte for byte, and the same bytes waiting. The
/// bytes that wait have to be those that the shaper has counted, unless the record is full, and
/// the buffer has to hold the shaper's records; else it is the buffered writer that cuts, and
/// it cuts between writes.
pub proof fn law_divided_writes_are_one_write(session: Session, a: Seq<u8>, b: Seq<u8>)
    requires
        session.shaper.wf(),
        session.shaper.can_count(),
        a.len() + b.len() <= usize::MAX,
    ensures
        session.step(SessionOp::Write(a)).step(SessionOp::Write(b)).shaper == session.step(
            SessionOp::Write(a + b),
        ).shaper,
        ({
            &&& session.shaper.enabled
            &&& session.shaper.has_room() ==> session.wire.open.len() == session.shaper.pending
            &&& holds(session.wire.capacity, session.shaper.split_max)
        }) ==> session.step(SessionOp::Write(a)).step(SessionOp::Write(b)) == session.step(
            SessionOp::Write(a + b),
        ),
{
    if session.shaper.enabled {
        lemma_write_joins(session.shaper, a, b, session.wire);
    } else {
        lemma_write_state(session.shaper, 0, a.len() as usize);
        lemma_write_state(session.shaper, 0, b.len() as usize);
        lemma_write_state(session.shaper, 0, (a + b).len() as usize);
    }
}

/// Law: the bands of a new shaper fit its buffer. They are the constants, cut off at the
/// capacity; the floor of a band never exceeds its top, and the first target lies in the
/// fill band. So a buffer that holds what was asked for, or more, holds every record.
pub proof fn law_bands_fit_the_buffer(configured: bool, capacity: nat, seed: u64)
    ensures
        ({
            let s: ShaperModel = ShaperModel::seeded(configured, capacity, seed);
            &&& s.wf()
            &&& s.split_max == band_top(SPLIT_MAX as nat, capacity)
            &&& 1 <= s.head_min <= s.target <= s.head_max <= s.split_max
            &&& s.split_min <= s.split_max
            &&& capacity >= 1 ==> s.split_max <= capacity
            &&& capacity >= SPLIT_MAX ==> s.head_min == HEAD_MIN && s.head_max == HEAD_MAX
                && s.split_min == SPLIT_MIN && s.split_max == SPLIT_MAX
            &&& forall|held: nat| held >= capacity ==> #[trigger] holds(held, s.split_max)
        }),
{
    lemma_seeded(configured, capacity, seed);
}

/// Law: switching shaping on between two records puts the session in step.
pub proof fn law_enabling_starts_in_step(session: Session)
    requires
        session.shaper.wf(),
        !session.shaper.enabled,
        session.shaper.configured,
        session.wire.open.len() == 0,
        holds(session.wire.capacity, session.shaper.split_max),
    ensures
        session.step(SessionOp::Enable).in_step(),
{
}

/// Law: no operation takes a session out of step. Between operations the shaper has counted
/// just the bytes that wait for a flush, and they are fewer than the record aims for.
pub proof fn law_sessions_stay_in_step(session: Session, ops: Seq<SessionOp>)
    requires
        session.in_step(),
        writable(ops),
    ensures
        session.run(ops).in_step(),
        session.run(ops).shaper.split_max == session.shaper.split_max,
    decreases ops.len(),
{
    if ops.len() > 0 {
        lemma_writable(ops);
        law_sessions_stay_in_step(session, ops.drop_last());
        lemma_step_in_step(session.run(ops.drop_last()), ops.last());
    }
}

/// Every record that one operation adds has a byte at least, and no more than the split
/// band's top.
proof fn lemma_step_bounds(session: Session, op: SessionOp)
    requires
        session.in_step(),
        op is Write ==> op->Write_0.len() <= usize::MAX,
    ensures
        session.step(op).wire.sent.len() >= session.wire.sent.len(),
        session.step(op).wire.sent.take(session.wire.sent.len() as int) == session.wire.sent,
        forall|i: int|
            session.wire.sent.len() <= i < session.step(op).wire.sent.len() ==> 1
                <= #[trigger] session.step(op).wire.sent[i].len() <= session.shaper.split_max,
{
    let sent: Seq<Seq<u8>> = session.wire.sent;
    assert(sent.take(sent.len() as int) =~= sent);
    match op {
        SessionOp::Write(buf) => {
            lemma_write_records(session.shaper, 0, buf, session.wire);
        },
        SessionOp::Flush => {
            lemma_flush_state(session.shaper);
            lemma_flush_effect(session.shaper, session.wire);
            let record: Seq<u8> = session.wire.open + fill(session.shaper);
            assert(sent.push(record).take(sent.len() as int) =~= sent);
        },
        _ => {},
    }
}

/// Law: while a session is shaped, every record that goes out has at least one byte and at
/// most [`SPLIT_MAX`], and never more than the buffer holds, if it holds anything; neither
/// has the record that waits. So a payload goes out as many records, not as a few huge ones.
pub proof fn law_records_stay_in_bounds(session: Session, capacity: nat, ops: Seq<SessionOp>)
    requires
        session.in_step(),
        session.shaper.split_max == band_top(SPLIT_MAX as nat, capacity),
        writable(ops),
    ensures
        ({
            let before: Wire = session.wire;
            let after: Wire = session.run(ops).wire;
            &&& after.sent.len() >= before.sent.len()
            &&& after.sent.take(before.sent.len() as int) == before.sent
            &&& forall|i: int|
                before.sent.len() <= i < after.sent.len() ==> {
                    &&& 1 <= #[trigger] after.sent[i].len() <= SPLIT_MAX
                    &&& capacity >= 1 ==> after.sent[i].len() <= capacity
                }
            &&& after.open.len() <= SPLIT_MAX
            &&& capacity >= 1 ==> after.open.len() <= capacity
            &&& joined(after.sent).len() - joined(before.sent).len() <= (after.sent.len()
                - before.sent.len()) * SPLIT_MAX
        }),
    decreases ops.len(),
{
    let before: Wire = session.wire;
    law_sessions_stay_in_step(session, ops);
    if ops.len() == 0 {
        assert(before.sent.take(before.sent.len() as int) =~= before.sent);
    } else {
        lemma_writable(ops);
        let mid: Session = session.run(ops.drop_last());
        let after: Wire = session.run(ops).wire;
        law_records_stay_in_bounds(session, capacity, ops.drop_last());
        law_sessions_stay_in_step(session, ops.drop_last());
        lemma_step_bounds(mid, ops.last());
        assert forall|i: int| 0 <= i < mid.wire.sent.len() implies after.sent[i]
            == mid.wire.sent[i] by {
            assert(after.sent.take(mid.wire.sent.len() as int)[i] == after.sent[i]);
        }
        assert forall|i: int| 0 <= i < before.sent.len() implies mid.wire.sent[i]
            == before.sent[i] by {
            assert(mid.wire.sent.take(before.sent.len() as int)[i] == mid.wire.sent[i]);
        }
        assert(after.sent.take(before.sent.len() as int) =~= before.sent);
        assert forall|i: int| before.sent.len() <= i < after.sent.len() implies {
            &&& 1 <= #[trigger] after.sent[i].len() <= SPLIT_MAX
            &&& capacity >= 1 ==> after.sent[i].len() <= capacity
        } by {
            if i < mid.wire.sent.len() {
                assert(after.sent[i] == mid.wire.sent[i]);
            }
        }
        lemma_joined_bound(mid.wire.sent, after.sent, SPLIT_MAX as nat);
        assert((mid.wire.sent.len() - before.sent.len()) * SPLIT_MAX + (after.sent.len()
            - mid.wire.sent.len()) * SPLIT_MAX == (after.sent.len() - before.sent.len())
            * SPLIT_MAX) by (nonlinear_arith);
    }
}

/// Records of at most `top` bytes each hold at most `top` bytes each in all.
proof fn lemma_joined_bound(before: Seq<Seq<u8>>, after: Seq<Seq<u8>>, top: nat)
    requires
        before.len() <= after.len(),
        after.take(before.len() as int) == before,
        forall|i: int| before.len() <= i < after.len() ==> #[trigger] after[i].len() <= top,
    ensures
        joined(after).len() - joined(before).len() <= (after.len() - before.len()) * top,
    decreases after.len(),
{
    if after.len() == before.len() {
        assert(after.take(before.len() as int) =~= after);
    } else {
        let most: Seq<Seq<u8>> = after.drop_last();
        assert(most.take(before.len() as int) =~= after.take(before.len() as int));
        assert forall|i: int| before.len() <= i < most.len() implies #[trigger] most[i].len()
            <= top by {
            assert(most[i] == after[i]);
        }
        lemma_joined_bound(before, most, top);
        assert(after.last() == after[after.len() - 1]);
        assert((most.len() - before.len()) * top + top == (after.len() - before.len()) * top)
            by (nonlinear_arith)
            requires
                most.len() == after.len() - 1,
        ;
    }
}

/// Law: a session that is not shaped puts on the wire just what it would without a shaper:
/// each buffer goes to the buffered writer whole, and each flush is one flush of it, with
/// nothing split and nothing filled. It stays so as long as the peer does not announce that it
/// takes padding, and, where the operator switched the feature off, even if it does.
pub proof fn law_unshaped_sessions_are_untouched(session: Session, ops: Seq<SessionOp>)
    requires
        session.shaper.wf(),
        !session.shaper.enabled,
        !session.shaper.configured || forall|i: int|
            0 <= i < ops.len() ==> !(#[trigger] ops[i] is Enable),
        writable(ops),
    ensures
        session.run(ops).shaper == session.shaper,
        session.run(ops).wire == plain_run(session.wire, ops),
        session.run(ops).padding == session.padding,
    decreases ops.len(),
{
    if ops.len() > 0 {
        let earlier: Seq<SessionOp> = ops.drop_last();
        let s: ShaperModel = session.shaper;
        lemma_writable(ops);
        assert(ops.last() == ops[ops.len() - 1]);
        if s.configured {
            assert forall|i: int| 0 <= i < earlier.len() implies !(#[trigger] earlier[i] is Enable)
                by {
                assert(earlier[i] == ops[i]);
            }
        }
        law_unshaped_sessions_are_untouched(session, earlier);
        let wire: Wire = plain_run(session.wire, earlier);
        match ops.last() {
            SessionOp::Write(buf) => {
                lemma_write_short(s, buf, wire);
            },
            SessionOp::Flush => {
                lemma_flush_state(s);
                lemma_flush_effect(s, wire);
                assert(wire.open + fill(s) =~= wire.open);
            },
            _ => {},
        }
    }
}

/// Law: a burst head that is short of the fill band is brought into it when it is flushed,
/// provided that the buffer leaves room above the band's floor for the least frame.
pub proof fn law_flush_fills_a_short_head(session: Session)
    requires
        session.in_step(),
        session.shaper.head,
        0 < session.shaper.pending < HEAD_MIN,
        session.shaper.split_max >= HEAD_MIN + HEADER_SIZE - 1,
    ensures
        ({
            let after: Wire = session.step(SessionOp::Flush).wire;
            &&& after.sent == session.wire.sent.push(
                session.wire.open + waste_frame(session.shaper.tail_padding()),
            )
            &&& HEAD_MIN <= after.sent.last().len() <= HEAD_MAX < SPLIT_MAX
            &&& after.open.len() == 0
        }),
{
    lemma_flush_state(session.shaper);
    lemma_flush_effect(session.shaper, session.wire);
}

/// Law: the padding of a flush is one whole `Waste` frame, which sits in the same record as
/// the bytes that it fills up, behind them; and there is none unless the record is a burst
/// head.
pub proof fn law_padding_is_one_waste_frame(session: Session)
    requires
        session.in_step(),
    ensures
        ({
            let pad: nat = session.shaper.tail_padding();
            let after: Wire = session.step(SessionOp::Flush).wire;
            &&& pad == 0 ==> after == session.wire.flush()
            &&& pad > 0 ==> {
                &&& session.shaper.head
                &&& after.sent == session.wire.sent.push(session.wire.open + waste_frame(pad))
                &&& waste_frame(pad).len() == pad
                &&& frames(waste_frame(pad)) == Some(seq![waste_frame(pad)])
                &&& is_waste(waste_frame(pad))
            }
        }),
{
    lemma_flush_state(session.shaper);
    lemma_flush_effect(session.shaper, session.wire);
    if session.shaper.tail_padding() > 0 {
        crate::frame::lemma_waste_frame_is_one_frame(session.shaper.tail_padding());
    } else {
        assert(session.wire.open + fill(session.shaper) =~= session.wire.open);
    }
}

/// Law: a flush with nothing to flush changes nothing.
pub proof fn law_empty_flush_changes_nothing(session: Session)
    requires
        session.in_step(),
        session.shaper.pending == 0,
    ensures
        session.step(SessionOp::Flush) == session,
{
    lemma_flush_state(session.shaper);
    lemma_flush_effect(session.shaper, session.wire);
    assert(session.wire.open + fill(session.shaper) =~= session.wire.open);
}

/// Law: the record behind a flushed or a full one is no burst head, so that the tail of a
/// burst goes out as it is, unless a new burst is announced before it is ended.
pub proof fn law_tails_are_not_padded(session: Session, buf: Seq<u8>)
    requires
        session.in_step(),
        buf.len() <= usize::MAX,
    ensures
        session.shaper.pending > 0 ==> ({
            let tail: Session = session.step(SessionOp::Flush).step(SessionOp::Write(buf));
            tail.step(SessionOp::Flush).wire == tail.wire.flush()
        }),
        session.step(SessionOp::Write(buf)).wire.sent.len() > session.wire.sent.len() ==> ({
            let tail: Session = session.step(SessionOp::Write(buf));
            tail.step(SessionOp::Flush).wire == tail.wire.flush()
        }),
{
    let flushed: Session = session.step(SessionOp::Flush);
    let tail: Session = flushed.step(SessionOp::Write(buf));
    let direct: Session = session.step(SessionOp::Write(buf));
    lemma_step_in_step(session, SessionOp::Flush);
    lemma_step_in_step(flushed, SessionOp::Write(buf));
    lemma_step_in_step(session, SessionOp::Write(buf));
    if session.shaper.pending > 0 {
        lemma_flush_not_head(session.shaper);
    }
    lemma_write_state(flushed.shaper, 0, buf.len() as usize);
    lemma_write_records(session.shaper, 0, buf, session.wire);
    law_padding_is_one_waste_frame(tail);
    law_padding_is_one_waste_frame(direct);
}

/// A record that is ended is followed by one that is no burst head.
proof fn lemma_flush_not_head(s: ShaperModel)
    requires
        s.wf(),
        s.enabled,
        s.pending > 0,
    ensures
        !flush_outcome(s).head,
{
    let filled: ShaperModel = s.account(s.tail_padding());
    lemma_pick_target(
        ShaperModel {
            pending: 0,
            head: false,
            stats: filled.stats.with_record(filled.pending as u64, s.tail_padding() as u64),
            ..filled
        },
    );
}

/// Law: whatever a burst starts with, its first record lands in the fill band. Bytes that
/// are written at a burst head where no record is open, and then flushed, go out with a
/// first record of [`HEAD_MIN`] to [`HEAD_MAX`] bytes.
pub proof fn law_bursts_start_in_the_fill_band(session: Session, buf: Seq<u8>)
    requires
        session.in_step(),
        session.shaper.head,
        session.shaper.pending == 0,
        session.shaper.split_max >= HEAD_MIN + HEADER_SIZE - 1,
        0 < buf.len() <= usize::MAX,
    ensures
        ({
            let before: Seq<Seq<u8>> = session.wire.sent;
            let after: Seq<Seq<u8>> = session.step(SessionOp::Write(buf)).step(
                SessionOp::Flush,
            ).wire.sent;
            &&& after.len() > before.len()
            &&& after.take(before.len() as int) == before
            &&& HEAD_MIN <= after[before.len() as int].len() <= HEAD_MAX
        }),
{
    let s: ShaperModel = session.shaper;
    let before: Seq<Seq<u8>> = session.wire.sent;
    let wrote: Session = session.step(SessionOp::Write(buf));
    let after: Seq<Seq<u8>> = wrote.step(SessionOp::Flush).wire.sent;
    lemma_step_in_step(session, SessionOp::Write(buf));
    lemma_write_records(s, 0, buf, session.wire);
    lemma_step_bounds(wrote, SessionOp::Flush);
    let kept: Seq<Seq<u8>> = after.take(wrote.wire.sent.len() as int);
    assert forall|i: int| 0 <= i < wrote.wire.sent.len() implies after[i] == wrote.wire.sent[i] by {
        assert(kept[i] == after[i]);
    }
    let first: Seq<Seq<u8>> = wrote.wire.sent.take(before.len() as int);
    assert forall|i: int| 0 <= i < before.len() implies wrote.wire.sent[i] == before[i] by {
        assert(first[i] == wrote.wire.sent[i]);
    }
    assert(after.take(before.len() as int) =~= before);
    if buf.len() < s.target {
        lemma_write_short(s, buf, session.wire);
        lemma_write_fits(session.wire, buf);
        lemma_flush_state(wrote.shaper);
        lemma_flush_effect(wrote.shaper, wrote.wire);
    }
}

/// Law: announcing a burst where no record is open makes the next record a burst head, and
/// where one is open makes that one a burst head without changing the size it aims for.
pub proof fn law_marking_makes_a_burst_head(session: Session)
    requires
        session.in_step(),
    ensures
        ({
            let marked: Session = session.step(SessionOp::MarkBurstHead);
            &&& marked.in_step()
            &&& marked.shaper.head
            &&& marked.shaper.pending == session.shaper.pending
            &&& session.shaper.pending > 0 ==> marked.shaper.target == session.shaper.target
            &&& marked.wire == session.wire
        }),
{
    lemma_step_in_step(session, SessionOp::MarkBurstHead);
    lemma_pick_target(ShaperModel { head: true, ..session.shaper });
}

/// Whether every buffer that `ops` write is a sequence of whole frames.
pub open spec fn framed(ops: Seq<SessionOp>) -> bool {
    forall|i: int|
        0 <= i < ops.len() ==> match #[trigger] ops[i] {
            SessionOp::Write(buf) => frames(buf) is Some,
            _ => true,
        }
}

/// Law: padding never tears a frame. As long as the buffers that a session writes are whole
/// frames, the stream that the peer reads is whole frames too, however writes, flushes and
/// burst heads interleave and whenever shaping starts; and the frames in it that are not
/// `Waste` are those that were written, in order.
pub proof fn law_frames_survive(shaper: ShaperModel, capacity: nat, ops: Seq<SessionOp>)
    requires
        shaper.wf(),
        shaper.can_count(),
        writable(ops),
        framed(ops),
    ensures
        ({
            let stream: Seq<u8> = Session::start(shaper, capacity).run(ops).wire.stream();
            &&& frames(written(ops)) is Some
            &&& frames(stream) is Some
            &&& real_frames(frames(stream).unwrap()) == real_frames(frames(written(ops)).unwrap())
        }),
        Session::start(shaper, capacity).run(ops).shaper.wf(),
        Session::start(shaper, capacity).run(ops).shaper.can_count(),
    decreases ops.len(),
{
    let start: Session = Session::start(shaper, capacity);
    if ops.len() == 0 {
        assert(start.wire.stream() =~= Seq::<u8>::empty());
    } else {
        let earlier: Seq<SessionOp> = ops.drop_last();
        lemma_writable(ops);
        assert forall|i: int| 0 <= i < earlier.len() implies match #[trigger] earlier[i] {
            SessionOp::Write(buf) => frames(buf) is Some,
            _ => true,
        } by {
            assert(earlier[i] == ops[i]);
        }
        assert(ops.last() == ops[ops.len() - 1]);
        law_frames_survive(shaper, capacity, earlier);
        let mid: Session = start.run(earlier);
        let s: ShaperModel = mid.shaper;
        let stream: Seq<u8> = mid.wire.stream();
        match ops.last() {
            SessionOp::Enable => {},
            SessionOp::MarkBurstHead => {
                lemma_mark_burst_head(s);
            },
            SessionOp::Write(buf) => {
                lemma_write_state(s, 0, buf.len() as usize);
                law_write_is_verbatim(mid, buf);
                crate::frame::lemma_frames_concat(stream, buf);
                crate::frame::lemma_frames_concat(written(earlier), buf);
                lemma_real_frames_concat(frames(stream).unwrap(), frames(buf).unwrap());
                lemma_real_frames_concat(frames(written(earlier)).unwrap(), frames(buf).unwrap());
            },
            SessionOp::Flush => {
                lemma_flush_state(s);
                lemma_flush_reads(s, mid.wire);
                if s.tail_padding() == 0 {
                    assert(stream + fill(s) =~= stream);
                } else {
                    let waste: Seq<u8> = waste_frame(s.tail_padding());
                    crate::frame::lemma_waste_frame_is_one_frame(s.tail_padding());
                    crate::frame::lemma_frames_concat(stream, waste);
                    lemma_real_frames_concat(frames(stream).unwrap(), seq![waste]);
                    lemma_real_frames_of_waste(waste);
                    assert(real_frames(frames(stream).unwrap()) + Seq::<Seq<u8>>::empty()
                        =~= real_frames(frames(stream).unwrap()));
                }
            },
        }
    }
}

/// The frames that a peer keeps of two runs of frames are those it keeps of each.
proof fn lemma_real_frames_concat(a: Seq<Seq<u8>>, b: Seq<Seq<u8>>)
    ensures
        real_frames(a + b) == real_frames(a) + real_frames(b),
{
    Seq::filter_distributes_over_add(a, b, |frame: Seq<u8>| !is_waste(frame));
}

/// A peer keeps nothing of a `Waste` frame.
proof fn lemma_real_frames_of_waste(frame: Seq<u8>)
    requires
        is_waste(frame),
    ensures
        real_frames(seq![frame]) == Seq::<Seq<u8>>::empty(),
{
    reveal_with_fuel(Seq::filter, 2);
    assert(seq![frame].drop_last() =~= Seq::<Seq<u8>>::empty());
}

/// Whether a session's counts are right: those of the records on its wire, with the padding
/// that was written, as far as 64 bits go; and every byte on the wire is payload or padding.
pub open spec fn accounted(session: Session) -> bool {
    &&& counted(session.shaper, session.wire)
    &&& session.shaper.stats.padded as nat == session.padding % 0x1_0000_0000_0000_0000
    &&& session.wire.stream().len() == session.payload + session.padding
}

/// A count that wraps at 64 bits is the true count modulo 2^64.
proof fn lemma_wrapping_count(count: u64, true_count: nat, more: u64)
    requires
        count as nat == true_count % 0x1_0000_0000_0000_0000,
    ensures
        count.wrapping_add(more) as nat == (true_count + more as nat) % 0x1_0000_0000_0000_0000,
{
}

/// No operation of a shaped session makes its counts wrong.
proof fn lemma_step_accounted(session: Session, op: SessionOp)
    requires
        session.in_step(),
        accounted(session),
        op is Write ==> op->Write_0.len() <= usize::MAX,
    ensures
        accounted(session.step(op)),
{
    lemma_step_in_step(session, op);
    match op {
        SessionOp::Enable => {},
        SessionOp::MarkBurstHead => {
            lemma_pick_target(ShaperModel { head: true, ..session.shaper });
        },
        SessionOp::Write(buf) => {
            law_write_is_verbatim(session, buf);
        },
        SessionOp::Flush => {
            let pad: nat = session.shaper.tail_padding();
            lemma_flush_state(session.shaper);
            lemma_flush_reads(session.shaper, session.wire);
            lemma_wrapping_count(session.shaper.stats.padded, session.padding, pad as u64);
        },
    }
}

/// Law: the counters are right after every operation of a shaped session, from its start.
pub proof fn law_counters_match_the_wire(shaper: ShaperModel, capacity: nat, ops: Seq<SessionOp>)
    requires
        shaper.wf(),
        shaper.enabled,
        shaper.pending == 0,
        shaper.stats == ShapingStats::zero(),
        holds(capacity, shaper.split_max),
        writable(ops),
    ensures
        accounted(Session::start(shaper, capacity).run(ops)),
        Session::start(shaper, capacity).run(ops).payload == written(ops).len(),
    decreases ops.len(),
{
    let start: Session = Session::start(shaper, capacity);
    if ops.len() == 0 {
        assert(start.wire.stream() =~= Seq::<u8>::empty());
    } else {
        lemma_writable(ops);
        law_counters_match_the_wire(shaper, capacity, ops.drop_last());
        law_sessions_stay_in_step(start, ops.drop_last());
        lemma_step_accounted(start.run(ops.drop_last()), ops.last());
    }
}

/// Law: padding is not counted as payload. When everything that a shaped session wrote has
/// been flushed, the counters' real bytes are just the bytes that were written, as long as
/// payload and padding together stay within 64 bits.
pub proof fn law_real_bytes_are_the_payload(
    shaper: ShaperModel,
    capacity: nat,
    ops: Seq<SessionOp>,
)
    requires
        shaper.wf(),
        shaper.enabled,
        shaper.pending == 0,
        shaper.stats == ShapingStats::zero(),
        holds(capacity, shaper.split_max),
        writable(ops),
        Session::start(shaper, capacity).run(ops).shaper.pending == 0,
        written(ops).len() + Session::start(shaper, capacity).run(ops).padding <= u64::MAX,
    ensures
        ({
            let end: Session = Session::start(shaper, capacity).run(ops);
            &&& end.shaper.stats.spec_real_bytes() == written(ops).len()
            &&& end.shaper.stats.padded == end.padding
        }),
{
    let end: Session = Session::start(shaper, capacity).run(ops);
    law_counters_match_the_wire(shaper, capacity, ops);
    law_sessions_stay_in_step(Session::start(shaper, capacity), ops);
    assert(end.wire.stream() =~= joined(end.wire.sent));
}

/// Law: padding is paid at most once a burst. A session that announces so many bursts writes
/// less than [`HEAD_MAX`] bytes of padding for each, and for the one that it starts in.
pub proof fn law_padding_cost_is_bounded(shaper: ShaperModel, capacity: nat, ops: Seq<SessionOp>)
    requires
        shaper.wf(),
        shaper.can_count(),
        writable(ops),
    ensures
        Session::start(shaper, capacity).run(ops).padding <= (HEAD_MAX - 1) * (1 + marks(ops)),
{
    lemma_padding_cost(shaper, capacity, ops);
}

/// The padding of a session is paid for by the bursts announced, with the one that is open
/// still to pay.
proof fn lemma_padding_cost(shaper: ShaperModel, capacity: nat, ops: Seq<SessionOp>)
    requires
        shaper.wf(),
        shaper.can_count(),
        writable(ops),
    ensures
        ({
            let end: Session = Session::start(shaper, capacity).run(ops);
            &&& end.shaper.wf()
            &&& end.shaper.can_count()
            &&& end.padding + (if end.shaper.head {
                HEAD_MAX - 1
            } else {
                0int
            }) <= (HEAD_MAX - 1) * (1 + marks(ops))
        }),
    decreases ops.len(),
{
    if ops.len() > 0 {
        lemma_writable(ops);
        lemma_padding_cost(shaper, capacity, ops.drop_last());
        let mid: Session = Session::start(shaper, capacity).run(ops.drop_last());
        match ops.last() {
            SessionOp::Enable => {},
            SessionOp::MarkBurstHead => {
                lemma_mark_burst_head(mid.shaper);
            },
            SessionOp::Write(buf) => {
                lemma_write_state(mid.shaper, 0, buf.len() as usize);
            },
            SessionOp::Flush => {
                lemma_flush_state(mid.shaper);
            },
        }
    }
}

/// Law: shaping is gated twice. A session is shaped just when the operator switched the
/// feature on and the peer announced that it takes padding; neither overrides the other, and
/// nothing else switches shaping on or off.
pub proof fn law_shaping_is_gated_twice(shaper: ShaperModel, capacity: nat, ops: Seq<SessionOp>)
    requires
        shaper.wf(),
        !shaper.enabled,
        writable(ops),
    ensures
        Session::start(shaper, capacity).run(ops).shaper.enabled <==> shaper.configured
            && exists|i: int| 0 <= i < ops.len() && #[trigger] ops[i] is Enable,
{
    lemma_gates(shaper, capacity, ops);
}

/// Both gates, with what keeps a session going.
proof fn lemma_gates(shaper: ShaperModel, capacity: nat, ops: Seq<SessionOp>)
    requires
        shaper.wf(),
        !shaper.enabled,
        writable(ops),
    ensures
        ({
            let s: ShaperModel = Session::start(shaper, capacity).run(ops).shaper;
            &&& s.wf()
            &&& s.can_count()
            &&& s.configured == shaper.configured
            &&& s.enabled <==> shaper.configured && exists|i: int|
                0 <= i < ops.len() && #[trigger] ops[i] is Enable
        }),
    decreases ops.len(),
{
    if ops.len() > 0 {
        let earlier: Seq<SessionOp> = ops.drop_last();
        let mid: ShaperModel = Session::start(shaper, capacity).run(earlier).shaper;
        lemma_writable(ops);
        lemma_gates(shaper, capacity, earlier);
        match ops.last() {
            SessionOp::Enable => {},
            SessionOp::MarkBurstHead => {
                lemma_mark_burst_head(mid);
            },
            SessionOp::Write(buf) => {
                lemma_write_state(mid, 0, buf.len() as usize);
            },
            SessionOp::Flush => {
                lemma_flush_state(mid);
            },
        }
        assert(ops[ops.len() - 1] == ops.last());
        assert(forall|i: int| 0 <= i < earlier.len() ==> #[trigger] ops[i] == earlier[i]);
        if exists|i: int| 0 <= i < earlier.len() && #[trigger] earlier[i] is Enable {
            let i: int = choose|i: int| 0 <= i < earlier.len() && #[trigger] earlier[i] is Enable;
            assert(ops[i] is Enable);
        }
        if exists|i: int| 0 <= i < ops.len() && #[trigger] ops[i] is Enable {
            let i: int = choose|i: int| 0 <= i < ops.len() && #[trigger] ops[i] is Enable;
            assert(i < earlier.len() ==> earlier[i] is Enable);
        }
    }
}

/// Law: a seed fixes everything. Two shapers made alike take a session through the same
/// records.
pub proof fn law_same_seed_same_records(
    a: DownlinkShaper,
    b: DownlinkShaper,
    configured: bool,
    capacity: usize,
    seed: u64,
    ops: Seq<SessionOp>,
)
    requires
        a@ == ShaperModel::seeded(configured, capacity as nat, seed),
        b@ == ShaperModel::seeded(configured, capacity as nat, seed),
    ensures
        Session::start(a@, capacity as nat).run(ops) == Session::start(b@, capacity as nat).run(
            ops,
        ),
{
}

/// The states of the generator from which a draw from `[lo, hi]` comes out as `size`.
pub open spec fn states_drawing(lo: nat, hi: nat, size: nat) -> Set<u64> {
    Set::new(
        |state: u64|
            size_in(lo, hi, crate::rng::mixed(crate::rng::next_state(state))) == size,
    )
}

/// The `k`-th of the states from which a draw from a band of `n` sizes comes out as its
/// `offset`-th.
pub open spec fn drawing_state(n: nat, offset: nat, k: int) -> u64 {
    crate::rng::unmixed((k * n + offset) as u64).wrapping_sub(crate::rng::GAMMA)
}

/// The words that pick the `offset`-th of `n` sizes are every `n`-th, from the `offset`-th on.
proof fn lemma_words_picking(n: nat, offset: nat, word: u64)
    requires
        offset < n <= 0x1_0000_0000_0000_0000,
    ensures
        ({
            let all: nat = 0x1_0000_0000_0000_0000;
            let count: int = all / n + if offset < all % n {
                1int
            } else {
                0int
            };
            &&& forall|k: int| 0 <= k < count ==> 0 <= #[trigger] (k * n) + offset < all
            &&& forall|k: int|
                0 <= k < count ==> (#[trigger] (k * n) + offset) % (n as int) == offset
            &&& word as nat % n == offset ==> {
                let k: int = word as int / n as int;
                &&& 0 <= k < count
                &&& k * n + offset == word
            }
        }),
{
    let all: nat = 0x1_0000_0000_0000_0000;
    let m: int = n as int;
    let q: int = all as int / m;
    let rest: int = all as int % m;
    vstd::arithmetic::div_mod::lemma_fundamental_div_mod(all as int, m);
    vstd::arithmetic::div_mod::lemma_mod_bound(all as int, m);
    vstd::arithmetic::mul::lemma_mul_is_commutative(m, q);
    let count: int = q + if offset < rest {
        1int
    } else {
        0int
    };
    assert forall|k: int| 0 <= k < count implies 0 <= #[trigger] (k * n) + offset < all by {
        if k < q {
            assert(k * m + m <= q * m) by (nonlinear_arith)
                requires
                    k < q,
                    m > 0,
            ;
        }
        assert(0 <= k * m) by (nonlinear_arith)
            requires
                0 <= k,
                m > 0,
        ;
    }
    assert forall|k: int| 0 <= k < count implies (#[trigger] (k * n) + offset) % (n as int)
        == offset by {
        vstd::arithmetic::div_mod::lemma_fundamental_div_mod_converse(
            k * m + offset,
            m,
            k,
            offset as int,
        );
    }
    if word as nat % n == offset {
        let k: int = word as int / m;
        vstd::arithmetic::div_mod::lemma_fundamental_div_mod(word as int, m);
        vstd::arithmetic::mul::lemma_mul_is_commutative(m, k);
        vstd::arithmetic::div_mod::lemma_div_pos_is_pos(word as int, m);
        assert(k < count) by (nonlinear_arith)
            requires
                k * m + offset < q * m + rest,
                0 <= offset,
                0 <= rest < m,
                m > 0,
                count == q + (if offset < rest {
                    1int
                } else {
                    0int
                }),
        ;
    }
}

/// Law: draws are uniform, as nearly as they can be. Of the 2^64 states of the generator, each
/// of the `n` sizes in `[lo, hi]` is drawn from `2^64 / n`, or from one more: the sizes at the
/// bottom of the band share out what the division leaves over.
pub proof fn law_draws_are_uniform(lo: nat, hi: nat, size: nat)
    requires
        lo <= size <= hi,
        hi - lo < 0x1_0000_0000_0000_0000,
    ensures
        ({
            let all: nat = 0x1_0000_0000_0000_0000;
            let n: nat = (hi - lo + 1) as nat;
            &&& states_drawing(lo, hi, size).finite()
            &&& states_drawing(lo, hi, size).len() == all / n + if size - lo < all % n {
                1nat
            } else {
                0nat
            }
        }),
{
    let all: nat = 0x1_0000_0000_0000_0000;
    let n: nat = (hi - lo + 1) as nat;
    let offset: nat = (size - lo) as nat;
    let count: int = all / n + if offset < all % n {
        1int
    } else {
        0int
    };
    let turns: Set<int> = vstd::set_lib::set_int_range(0, count);
    let states: Set<u64> = states_drawing(lo, hi, size);
    let state_of: spec_fn(int) -> u64 = |k: int| drawing_state(n, offset, k);
    vstd::arithmetic::div_mod::lemma_div_pos_is_pos(all as int, n as int);
    vstd::set_lib::lemma_int_range(0, count);
    lemma_words_picking(n, offset, 0);
    assert forall|k: int| turns.contains(k) implies #[trigger] crate::rng::mixed(
        crate::rng::next_state(drawing_state(n, offset, k)),
    ) == k * n + offset by {
        let word: u64 = (k * n + offset) as u64;
        assert(0 <= k * n + offset < all);
        assert(crate::rng::next_state(drawing_state(n, offset, k)) == crate::rng::unmixed(word));
        crate::rng::lemma_mixed_unmixed(word);
    }
    assert forall|j: int, k: int|
        turns.contains(j) && turns.contains(k) && #[trigger] state_of(j)
            == #[trigger] state_of(k) implies j == k by {
        assert(state_of(j) == drawing_state(n, offset, j));
        assert(state_of(k) == drawing_state(n, offset, k));
        assert(j * n + offset == crate::rng::mixed(
            crate::rng::next_state(drawing_state(n, offset, j)),
        ));
        assert(j * n == k * n);
        assert(j == k) by (nonlinear_arith)
            requires
                j * n == k * n,
                n > 0,
        ;
    }
    assert forall|state: u64| turns.map(state_of).contains(state) <==> #[trigger] states.contains(
        state,
    ) by {
        let word: u64 = crate::rng::mixed(crate::rng::next_state(state));
        if turns.map(state_of).contains(state) {
            let k: int = choose|k: int| turns.contains(k) && state_of(k) == state;
            assert(state == drawing_state(n, offset, k));
            assert(word == k * n + offset);
            assert((k * n + offset) % (n as int) == offset);
        }
        if states.contains(state) {
            let k: int = word as int / n as int;
            lemma_words_picking(n, offset, word);
            crate::rng::lemma_unmixed_mixed(crate::rng::next_state(state));
            assert(drawing_state(n, offset, k) == state);
            assert(turns.contains(k) && state_of(k) == state);
        }
    }
    assert(turns.map(state_of) =~= states);
    vstd::set_lib::lemma_map_size(turns, states, state_of);
}

/// Law: clamping a band into a buffer keeps it a band. The top becomes the largest size that
/// is neither above it nor above what the buffer holds, a buffer of no bytes counting as one
/// of a single byte; the floor comes down to the top where it must, and never rises. A band
/// that fits is left as it is, so that clamping again changes nothing.
pub proof fn law_clamping_keeps_a_band(lo: nat, hi: nat, capacity: nat)
    ensures
        ({
            let (lo2, hi2): (nat, nat) = clamped(lo, hi, capacity);
            let room: nat = if capacity >= 1 {
                capacity
            } else {
                1
            };
            &&& lo2 <= hi2 <= hi
            &&& hi2 == least(hi, room)
            &&& hi2 <= room && (hi2 == hi || hi2 == room)
            &&& lo2 <= lo && (lo2 == lo || lo2 == hi2)
            &&& lo2 == least(lo, hi2)
            &&& lo <= hi <= capacity ==> (lo2, hi2) == (lo, hi)
            &&& clamped(lo2, hi2, capacity) == (lo2, hi2)
            &&& capacity == 0 && lo >= 1 && hi >= 1 ==> (lo2, hi2) == (1nat, 1nat)
        }),
{
}

/// Law: a band is drawn from in full. For each size in the band that a record is drawn from,
/// and for no other, there is a state of the generator with which the record gets it.
pub proof fn law_every_size_in_the_band_can_be_drawn(s: ShaperModel, size: nat)
    requires
        s.wf(),
    ensures
        ({
            let (lo, hi): (nat, nat) = if s.head {
                (s.head_min, s.head_max)
            } else {
                (s.split_min, s.split_max)
            };
            lo <= size <= hi <==> exists|rng: u64|
                (#[trigger] (ShaperModel { rng, ..s }).pick_target()).target == size
        }),
{
    let (lo, hi): (nat, nat) = if s.head {
        (s.head_min, s.head_max)
    } else {
        (s.split_min, s.split_max)
    };
    if lo <= size <= hi {
        let word: u64 = (size - lo) as u64;
        let rng: u64 = drawing_state((hi - lo + 1) as nat, (size - lo) as nat, 0);
        assert(crate::rng::next_state(rng) == crate::rng::unmixed(word));
        crate::rng::lemma_mixed_unmixed(word);
        vstd::arithmetic::div_mod::lemma_small_mod(word as nat, (hi - lo + 1) as nat);
        assert((ShaperModel { rng, ..s }).pick_target().target == size);
    }
    assert forall|rng: u64| (#[trigger] (ShaperModel { rng, ..s }).pick_target()).target
        == size implies lo <= size <= hi by {
        lemma_pick_target(ShaperModel { rng, ..s });
    }
}

} // verus!
