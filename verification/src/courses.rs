//! What a session's records come to: which sizes they have, where those come from, and when
//! there is any shaping at all.

use crate::decisions::{
    law_a_flush_ends_the_record_with_its_padding, law_a_mark_draws_a_head,
    law_a_new_shaper_waits, law_an_ended_record_is_counted_and_bulk_is_drawn,
};
use crate::effects::{
    lemma_chunk, lemma_chunk_waits, lemma_flush_effect, lemma_flush_reads,
    lemma_flush_state, lemma_step_in_step, lemma_write_peels, lemma_write_records,
    lemma_write_short, lemma_write_state, lemma_write_unfolds,
};
use crate::frame::waste_frame;
use crate::laws::{
    law_enabling_starts_in_step, law_sessions_stay_in_step, law_shaping_is_gated_twice,
    law_unshaped_sessions_are_untouched,
};
use crate::rng::{lemma_state_after_adds, mixed, state_after};
use crate::shaper::{lemma_mark_burst_head, ShaperModel, HEAD_MIN, SPLIT_MIN};
use crate::stats::ShapingStats;
use crate::wire::{
    fresh_marks, holds, lemma_flush_empties, lemma_write_fits, plain_run, writable, Session,
    SessionOp, Wire,
};
use crate::write_state::{chunk_end, write_outcome, write_trace};
use vstd::prelude::*;

verus! {

/// Whether `size` is the one of the sizes in `[lo, hi]` that the word `word` picks: as far
/// above the floor as the word is above a multiple of the number of sizes.
pub open spec fn picks(lo: nat, hi: nat, word: u64, size: nat) -> bool {
    &&& lo <= size <= hi
    &&& (word - (size - lo)) % (hi - lo + 1) == 0
}

/// Law: a burst head that is flushed short of the fill band goes out at the size that it aims
/// for. Only where its target is out of a frame's reach does it get another: the band's top
/// where the target lies above that, and a bare header more where the target is nearer.
pub proof fn law_a_short_head_goes_out_at_its_target(session: Session)
    requires
        session.in_step(),
        session.shaper.head,
        0 < session.shaper.pending < session.shaper.head_min,
        session.shaper.pending + 7 <= session.shaper.head_max,
    ensures
        ({
            let s: ShaperModel = session.shaper;
            let before: Seq<Seq<u8>> = session.wire.sent;
            let after: Wire = session.step(SessionOp::Flush).wire;
            &&& after.open.len() == 0
            &&& after.sent.len() == before.len() + 1
            &&& after.sent.drop_last() == before
            &&& after.sent.last().take(s.pending as int) == session.wire.open
            &&& s.pending + 7 <= s.target <= s.head_max ==> after.sent.last().len() == s.target
            &&& s.target > s.head_max ==> after.sent.last().len() == s.head_max
            &&& s.target < s.pending + 7 ==> after.sent.last().len() == s.pending + 7
        }),
{
    let s: ShaperModel = session.shaper;
    let after: Wire = session.step(SessionOp::Flush).wire;
    lemma_flush_state(s);
    lemma_flush_effect(s, session.wire);
    assert(after.sent.drop_last() =~= session.wire.sent);
    assert(after.sent.last().take(s.pending as int) =~= session.wire.open);
}

/// Law: a flush leaves nothing waiting. Whatever waited before, and whatever the shaper has
/// counted of it, the peer reads it all, and behind it the padding, if there is any.
pub proof fn law_a_flush_leaves_nothing_waiting(session: Session)
    requires
        session.shaper.wf(),
    ensures
        ({
            let pad: nat = session.shaper.tail_padding();
            let after: Wire = session.step(SessionOp::Flush).wire;
            &&& after.open.len() == 0
            &&& pad == 0 ==> after == session.wire.flush()
            &&& pad > 0 ==> after.stream() == session.wire.stream() + waste_frame(pad)
            &&& session.step(SessionOp::Flush).padding == session.padding + pad
        }),
{
    lemma_flush_empties(session.wire, session.shaper);
    lemma_flush_reads(session.shaper, session.wire);
    if session.shaper.tail_padding() == 0 {
        crate::wire::lemma_flush_wire(session.wire, session.shaper);
    }
}

/// Law: a write goes record by record. Bytes that do not fill the record are written and
/// counted, and that is all; bytes that do are written as far as they fill it, it is ended, and
/// the rest is written behind it. A record that is full already takes one byte more. Where
/// nothing is being shaped, the bytes are written in one go and nothing is counted.
pub proof fn law_writes_go_record_by_record(session: Session, buf: Seq<u8>)
    requires
        session.shaper.wf(),
        session.shaper.can_count(),
        0 < buf.len() <= usize::MAX,
    ensures
        ({
            let s: ShaperModel = session.shaper;
            let left: nat = if s.pending < s.target {
                (s.target - s.pending) as nat
            } else {
                1
            };
            let after: Session = session.step(SessionOp::Write(buf));
            &&& !s.enabled ==> after == (Session {
                wire: session.wire.write(buf),
                payload: session.payload + buf.len(),
                ..session
            })
            &&& s.enabled && buf.len() < left ==> after == (Session {
                shaper: ShaperModel { pending: s.pending + buf.len(), ..s },
                wire: session.wire.write(buf),
                payload: session.payload + buf.len(),
                ..session
            })
            &&& s.enabled && buf.len() >= left ==> after == (Session {
                shaper: (ShaperModel { pending: s.pending + left, ..s }).record_done(0),
                wire: session.wire.write(buf.take(left as int)).flush(),
                payload: session.payload + left,
                ..session
            }).step(SessionOp::Write(buf.skip(left as int)))
        }),
{
    let s: ShaperModel = session.shaper;
    let n: nat = crate::shaper::least(s.budget(), buf.len());
    lemma_write_peels(s, buf, session.wire);
    lemma_chunk(s, 0, buf.len() as usize);
    if n == buf.len() {
        assert(buf.take(n as int) =~= buf);
        assert(buf.skip(n as int) =~= Seq::<u8>::empty());
    }
}

/// What a write draws: one size for each record that it ends, in turn.
proof fn lemma_write_draws(s: ShaperModel, at: usize, buf: Seq<u8>, wire: Wire)
    requires
        s.wf(),
        s.has_room(),
        s.enabled,
        s.split_min < s.split_max,
        wire.open.len() == s.pending,
        holds(wire.capacity, s.split_max),
        at <= buf.len() <= usize::MAX,
    ensures
        ({
            let s2: ShaperModel = write_outcome(s, at, buf.len() as usize);
            let sent2: Seq<Seq<u8>> = wire.after_all(
                write_trace(s, at, buf.len() as usize),
                buf,
            ).sent;
            let n: int = sent2.len() - wire.sent.len();
            &&& n >= 0
            &&& s2.rng == state_after(s.rng, n as nat)
            &&& n == 0 ==> s2.target == s.target
            &&& n > 0 ==> picks(s.split_min, s.split_max, mixed(s2.rng), s2.target)
            &&& forall|i: int|
                wire.sent.len() < i < sent2.len() ==> picks(
                    s.split_min,
                    s.split_max,
                    mixed(state_after(s.rng, (i - wire.sent.len()) as nat)),
                    #[trigger] sent2[i].len(),
                )
        }),
    decreases buf.len() - at,
{
    let len: usize = buf.len() as usize;
    if at < len {
        let to: usize = chunk_end(s, at, len);
        let chunk: Seq<u8> = buf.subrange(at as int, to as int);
        let written: ShaperModel = s.account((to - at) as nat);
        let mid: Wire = wire.append(chunk);
        lemma_chunk(s, at, len);
        lemma_chunk_waits(s, chunk, wire);
        lemma_write_unfolds(s, at, buf, wire);
        if written.full() {
            let next: ShaperModel = written.record_done(0);
            let sent1: Seq<Seq<u8>> = mid.flush().sent;
            let s2: ShaperModel = write_outcome(s, at, len);
            let sent2: Seq<Seq<u8>> = wire.after_all(write_trace(s, at, len), buf).sent;
            law_an_ended_record_is_counted_and_bulk_is_drawn(written, 0);
            lemma_write_draws(next, to, buf, mid.flush());
            lemma_write_records(next, to, buf, mid.flush());
            lemma_state_after_adds(s.rng, 1, (sent2.len() - sent1.len()) as nat);
            assert forall|i: int| wire.sent.len() < i < sent2.len() implies picks(
                s.split_min,
                s.split_max,
                mixed(state_after(s.rng, (i - wire.sent.len()) as nat)),
                #[trigger] sent2[i].len(),
            ) by {
                lemma_state_after_adds(s.rng, 1, (i - sent1.len()) as nat);
                if i == sent1.len() {
                    assert(sent2[i].len() == next.target);
                }
            }
        } else {
            lemma_write_draws(written, to, buf, mid);
        }
    }
}

/// Law: every bulk record is a draw of its own. Of the records that a write ends, the first has
/// the size that it aimed for, and each further one the size that the generator's next word
/// picks from the split band; so it goes on for as long as the write does, and the record that
/// is left open aims for the next draw.
pub proof fn law_bulk_records_are_drawn_in_turn(session: Session, buf: Seq<u8>, i: int)
    requires
        session.in_step(),
        session.shaper.split_min < session.shaper.split_max,
        buf.len() <= usize::MAX,
    ensures
        ({
            let s: ShaperModel = session.shaper;
            let after: Session = session.step(SessionOp::Write(buf));
            let first: int = session.wire.sent.len() as int;
            let n: int = after.wire.sent.len() - first;
            &&& 0 <= n
            &&& 0 < n ==> after.wire.sent[first].len() == s.target
            &&& 1 <= i < n ==> {
                let size: nat = after.wire.sent[first + i].len();
                let word: u64 = mixed(state_after(s.rng, i as nat));
                &&& s.split_min <= size <= s.split_max
                &&& (word - (size - s.split_min)) % (s.split_max - s.split_min + 1) == 0
            }
            &&& after.shaper.rng == state_after(s.rng, n as nat)
            &&& 0 < n ==> picks(
                s.split_min,
                s.split_max,
                mixed(state_after(s.rng, n as nat)),
                after.shaper.target,
            )
            &&& n == 0 ==> after.shaper.target == s.target
        }),
{
    lemma_write_draws(session.shaper, 0, buf, session.wire);
    lemma_write_records(session.shaper, 0, buf, session.wire);
}

/// How many draws one operation makes: one for each record that it ends, and one for a mark
/// between two records.
proof fn lemma_step_draws(session: Session, op: SessionOp)
    requires
        session.in_step(),
        session.shaper.split_min < session.shaper.split_max,
        op is Write ==> op->Write_0.len() <= usize::MAX,
    ensures
        ({
            let after: Session = session.step(op);
            let ended: int = after.wire.sent.len() - session.wire.sent.len();
            let marked: int = if op is MarkBurstHead && session.wire.open.len() == 0 {
                1
            } else {
                0
            };
            &&& ended >= 0
            &&& after.shaper.rng == state_after(session.shaper.rng, (ended + marked) as nat)
        }),
{
    let s: ShaperModel = session.shaper;
    match op {
        SessionOp::Enable => {},
        SessionOp::MarkBurstHead => {
            law_a_mark_draws_a_head(s);
        },
        SessionOp::Write(buf) => {
            lemma_write_draws(s, 0, buf, session.wire);
        },
        SessionOp::Flush => {
            law_a_flush_ends_the_record_with_its_padding(s);
            lemma_flush_effect(s, session.wire);
        },
    }
}

/// Law: every draw advances the generator, and nothing else does. While a session is shaped,
/// over any operations, it takes one step for each record that goes out and for each burst that
/// is announced between two records.
pub proof fn law_every_draw_advances_the_generator(session: Session, ops: Seq<SessionOp>)
    requires
        session.in_step(),
        session.shaper.split_min < session.shaper.split_max,
        writable(ops),
    ensures
        session.run(ops).wire.sent.len() >= session.wire.sent.len(),
        session.run(ops).shaper.rng == state_after(
            session.shaper.rng,
            (session.run(ops).wire.sent.len() - session.wire.sent.len() + fresh_marks(
                session,
                ops,
            )) as nat,
        ),
    decreases ops.len(),
{
    if ops.len() > 0 {
        let earlier: Seq<SessionOp> = ops.drop_last();
        let mid: Session = session.run(earlier);
        assert(ops.last() == ops[ops.len() - 1]);
        assert forall|i: int| 0 <= i < earlier.len() implies match #[trigger] earlier[i] {
            SessionOp::Write(buf) => buf.len() <= usize::MAX,
            _ => true,
        } by {
            assert(earlier[i] == ops[i]);
        }
        law_every_draw_advances_the_generator(session, earlier);
        law_sessions_stay_in_step(session, earlier);
        lemma_step_draws(mid, ops.last());
        let before: nat = (mid.wire.sent.len() - session.wire.sent.len() + fresh_marks(
            session,
            earlier,
        )) as nat;
        let ended: int = session.run(ops).wire.sent.len() - mid.wire.sent.len();
        let marked: int = if ops.last() is MarkBurstHead && mid.wire.open.len() == 0 {
            1
        } else {
            0
        };
        lemma_state_after_adds(session.shaper.rng, before, (ended + marked) as nat);
    }
}

/// Whether the size that a record aims for is the generator's latest draw: from the split band
/// for bulk, from the fill band for a burst head, and from either for a record that was made a
/// burst head when it had bytes.
pub open spec fn latest_draw(s: ShaperModel) -> bool {
    let bulk: bool = picks(s.split_min, s.split_max, mixed(s.rng), s.target);
    let fresh: bool = picks(s.head_min, s.head_max, mixed(s.rng), s.target);
    &&& !s.head ==> bulk
    &&& s.head && s.pending == 0 ==> fresh
    &&& bulk || fresh
}

/// What a write leaves the shaper with: a longer record, or a bulk one that was just drawn.
proof fn lemma_write_leaves_latest(s: ShaperModel, at: usize, len: usize)
    requires
        s.wf(),
        s.can_count(),
        s.split_min < s.split_max,
        latest_draw(s),
    ensures
        latest_draw(write_outcome(s, at, len)),
    decreases len - at,
{
    if at < len {
        let to: usize = chunk_end(s, at, len);
        let written: ShaperModel = s.account((to - at) as nat);
        lemma_chunk(s, at, len);
        if written.full() {
            law_an_ended_record_is_counted_and_bulk_is_drawn(written, 0);
            lemma_write_leaves_latest(written.record_done(0), to, len);
        } else {
            lemma_write_leaves_latest(written, to, len);
        }
    }
}

/// Law: a record always aims for the latest draw. From a new shaper on, over any operations,
/// whenever shaping starts, the size that the record being built aims for is the one that the
/// word of the generator's present state picks.
pub proof fn law_targets_are_the_latest_draw(
    configured: bool,
    capacity: nat,
    held: nat,
    seed: u64,
    ops: Seq<SessionOp>,
)
    requires
        capacity > SPLIT_MIN,
        writable(ops),
    ensures
        ({
            let s: ShaperModel = Session::start(
                ShaperModel::seeded(configured, capacity, seed),
                held,
            ).run(ops).shaper;
            &&& s.wf()
            &&& s.has_room()
            &&& s.split_min == SPLIT_MIN < s.split_max
            &&& latest_draw(s)
        }),
    decreases ops.len(),
{
    let start: Session = Session::start(ShaperModel::seeded(configured, capacity, seed), held);
    law_a_new_shaper_waits(configured, capacity, seed);
    if ops.len() > 0 {
        let earlier: Seq<SessionOp> = ops.drop_last();
        let s: ShaperModel = start.run(earlier).shaper;
        assert(ops.last() == ops[ops.len() - 1]);
        assert forall|i: int| 0 <= i < earlier.len() implies match #[trigger] earlier[i] {
            SessionOp::Write(buf) => buf.len() <= usize::MAX,
            _ => true,
        } by {
            assert(earlier[i] == ops[i]);
        }
        law_targets_are_the_latest_draw(configured, capacity, held, seed, earlier);
        match ops.last() {
            SessionOp::Enable => {},
            SessionOp::MarkBurstHead => {
                lemma_mark_burst_head(s);
                law_a_mark_draws_a_head(s);
            },
            SessionOp::Write(buf) => {
                lemma_write_state(s, 0, buf.len() as usize);
                lemma_write_leaves_latest(s, 0, buf.len() as usize);
            },
            SessionOp::Flush => {
                lemma_flush_state(s);
                law_a_flush_ends_the_record_with_its_padding(s);
            },
        }
    }
}

/// Law: a session follows its seed. A session that is shaped from its start stands, after any
/// operations, just as many draws behind its seed as records went out and bursts were announced
/// between two records, and the one draw that its first record took.
pub proof fn law_a_session_follows_its_seed(
    capacity: nat,
    held: nat,
    seed: u64,
    ops: Seq<SessionOp>,
)
    requires
        SPLIT_MIN < capacity <= held,
        writable(ops),
    ensures
        ({
            let start: Session = Session::start(
                ShaperModel::seeded(true, capacity, seed).enable(),
                held,
            );
            let end: Session = start.run(ops);
            end.shaper.rng == state_after(
                seed,
                1 + end.wire.sent.len() + fresh_marks(start, ops),
            )
        }),
{
    let new: ShaperModel = ShaperModel::seeded(true, capacity, seed);
    let start: Session = Session::start(new.enable(), held);
    let end: Session = start.run(ops);
    law_a_new_shaper_waits(true, capacity, seed);
    law_enabling_starts_in_step(Session::start(new, held));
    law_every_draw_advances_the_generator(start, ops);
    lemma_state_after_adds(seed, 1, end.wire.sent.len() + fresh_marks(start, ops));
}

/// Law: the head of a proxied connection's burst goes out at a size that was drawn for it. Where
/// a burst is announced between two records, and less than the fill band's floor is written and
/// flushed, one record goes out, and it has the size that the generator's next word picks from
/// the fill band; or a bare header more than was written, where that is larger.
pub proof fn law_a_marked_head_goes_out_at_a_drawn_size(session: Session, buf: Seq<u8>)
    requires
        session.in_step(),
        session.shaper.pending == 0,
        session.shaper.head_min == HEAD_MIN,
        session.shaper.head_max >= HEAD_MIN + 6,
        0 < buf.len() < HEAD_MIN,
    ensures
        ({
            let s: ShaperModel = session.shaper;
            let word: u64 = mixed(state_after(s.rng, 1));
            let marked: Session = session.step(SessionOp::MarkBurstHead);
            let after: Wire = marked.step(SessionOp::Write(buf)).step(SessionOp::Flush).wire;
            let size: nat = marked.shaper.target;
            &&& s.head_min <= size <= s.head_max
            &&& (word - (size - s.head_min)) % (s.head_max - s.head_min + 1) == 0
            &&& after.sent.len() == session.wire.sent.len() + 1
            &&& after.sent.drop_last() == session.wire.sent
            &&& after.sent.last().len() == if buf.len() + 7 <= size {
                size
            } else {
                buf.len() + 7
            }
            &&& after.open.len() == 0
        }),
{
    let marked: Session = session.step(SessionOp::MarkBurstHead);
    let wrote: Session = marked.step(SessionOp::Write(buf));
    law_a_mark_draws_a_head(session.shaper);
    lemma_step_in_step(session, SessionOp::MarkBurstHead);
    lemma_step_in_step(marked, SessionOp::Write(buf));
    lemma_write_short(marked.shaper, buf, marked.wire);
    lemma_write_fits(marked.wire, buf);
    law_a_short_head_goes_out_at_its_target(wrote);
}

/// Law: a new session is gated twice. Whatever the buffer and the seed, it is shaped just when
/// the operator switched the feature on and the peer announced that it takes padding. Until
/// then, and for ever where either is missing, the wire is what it would be without a shaper,
/// and nothing is counted.
pub proof fn law_new_sessions_are_gated_twice(
    configured: bool,
    capacity: nat,
    held: nat,
    seed: u64,
    ops: Seq<SessionOp>,
)
    requires
        writable(ops),
    ensures
        ({
            let start: Session = Session::start(
                ShaperModel::seeded(configured, capacity, seed),
                held,
            );
            let end: Session = start.run(ops);
            let announced: bool = exists|i: int| 0 <= i < ops.len() && #[trigger] ops[i] is Enable;
            &&& !start.shaper.enabled
            &&& end.shaper.enabled <==> configured && announced
            &&& !configured || !announced ==> {
                &&& end.wire == plain_run(Wire::fresh(held), ops)
                &&& end.shaper == start.shaper
                &&& end.shaper.stats == ShapingStats::zero()
                &&& end.padding == 0
            }
        }),
{
    let new: ShaperModel = ShaperModel::seeded(configured, capacity, seed);
    let start: Session = Session::start(new, held);
    law_a_new_shaper_waits(configured, capacity, seed);
    law_shaping_is_gated_twice(new, held, ops);
    if !configured || forall|i: int| 0 <= i < ops.len() ==> !(#[trigger] ops[i] is Enable) {
        law_unshaped_sessions_are_untouched(start, ops);
    }
}

} // verus!
