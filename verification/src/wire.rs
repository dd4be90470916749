//! What the network sees of a session, in the abstract: the buffered writer, the records
//! that leave it, and a session as the operations it goes through.

use crate::frame::{waste_header_of, zeros};
use crate::shaper::ShaperModel;
use crate::write_state::{
    flush_outcome, flush_trace, write_outcome, write_trace, WriteAction,
};
use vstd::prelude::*;

verus! {

/// The pieces of `parts`, one behind the other.
pub open spec fn joined(parts: Seq<Seq<u8>>) -> Seq<u8>
    decreases parts.len(),
{
    if parts.len() == 0 {
        Seq::empty()
    } else {
        joined(parts.drop_last()) + parts.last()
    }
}

/// The bytes that an action hands to the writer, where `buf` is being written.
pub open spec fn action_bytes(action: WriteAction, buf: Seq<u8>) -> Seq<u8> {
    match action {
        WriteAction::Payload { from, to } => buf.subrange(from as int, to as int),
        WriteAction::WasteHeader { len } => waste_header_of(len as nat).bytes(),
        WriteAction::Zeros { count } => zeros(count as nat),
        WriteAction::Flush => Seq::empty(),
        WriteAction::Finished => Seq::empty(),
    }
}

/// Whether a buffer of `capacity` bytes holds every record of up to `top` bytes. Records of a
/// single byte need no buffer.
pub open spec fn holds(capacity: nat, top: nat) -> bool {
    top <= capacity || top == 1
}

/// A buffered writer over a connection that takes whole what it is handed: the records that
/// went out, and the bytes that wait in the buffer.
pub struct Wire {
    /// Bytes that the buffer holds.
    pub capacity: nat,
    pub sent: Seq<Seq<u8>>,
    pub open: Seq<u8>,
}

impl Wire {
    /// A connection on which nothing was written, behind a buffer of `capacity` bytes.
    pub open spec fn fresh(capacity: nat) -> Self {
        Wire { capacity, sent: Seq::empty(), open: Seq::empty() }
    }

    /// The wire after `bytes` were written. Where they do not fit behind what waits, that is
    /// sent first, as a record; and where they fill the buffer by themselves, they bypass it,
    /// as a record of their own.
    pub open spec fn write(self, bytes: Seq<u8>) -> Self {
        let ready: Wire = if self.open.len() + bytes.len() > self.capacity {
            self.flush()
        } else {
            self
        };
        if bytes.len() == 0 {
            self
        } else if bytes.len() >= self.capacity {
            Wire { sent: ready.sent.push(bytes), ..ready }
        } else {
            ready.append(bytes)
        }
    }

    /// The wire with `bytes` behind those that wait.
    pub open spec fn append(self, bytes: Seq<u8>) -> Self {
        Wire { open: self.open + bytes, ..self }
    }

    /// The wire after a flush: what waited, if anything, is one record.
    pub open spec fn flush(self) -> Self {
        if self.open.len() == 0 {
            self
        } else {
            Wire { sent: self.sent.push(self.open), open: Seq::empty(), ..self }
        }
    }

    /// The wire after `action`, where `buf` is being written.
    pub open spec fn after(self, action: WriteAction, buf: Seq<u8>) -> Self {
        match action {
            WriteAction::Flush => self.flush(),
            _ => self.write(action_bytes(action, buf)),
        }
    }

    /// The wire after all of `trace`, where `buf` is being written.
    pub open spec fn after_all(self, trace: Seq<WriteAction>, buf: Seq<u8>) -> Self
        decreases trace.len(),
    {
        if trace.len() == 0 {
            self
        } else {
            self.after(trace[0], buf).after_all(trace.skip(1), buf)
        }
    }

    /// Every byte that was written, in order: what the peer reads.
    pub open spec fn stream(self) -> Seq<u8> {
        joined(self.sent) + self.open
    }
}

/// What a session does to its write half.
pub enum SessionOp {
    /// The peer announced that it takes padding.
    Enable,
    /// A burst starts here.
    MarkBurstHead,
    /// These framed bytes are written.
    Write(Seq<u8>),
    /// What is buffered is flushed.
    Flush,
}

/// A session: the shaper and the wire, and how many bytes of payload and of padding were
/// written.
pub struct Session {
    pub shaper: ShaperModel,
    pub wire: Wire,
    pub payload: nat,
    pub padding: nat,
}

impl Session {
    /// A session at its start, over a buffer of `capacity` bytes.
    pub open spec fn start(shaper: ShaperModel, capacity: nat) -> Self {
        Session { shaper, wire: Wire::fresh(capacity), payload: 0, padding: 0 }
    }

    /// The session after one operation.
    pub open spec fn step(self, op: SessionOp) -> Self {
        match op {
            SessionOp::Enable => Session { shaper: self.shaper.enable(), ..self },
            SessionOp::MarkBurstHead => Session { shaper: self.shaper.mark_burst_head(), ..self },
            SessionOp::Write(buf) => Session {
                shaper: write_outcome(self.shaper, 0, buf.len() as usize),
                wire: self.wire.after_all(write_trace(self.shaper, 0, buf.len() as usize), buf),
                payload: self.payload + buf.len(),
                ..self
            },
            SessionOp::Flush => Session {
                shaper: flush_outcome(self.shaper),
                wire: self.wire.after_all(flush_trace(self.shaper), Seq::empty()),
                padding: self.padding + self.shaper.tail_padding(),
                ..self
            },
        }
    }

    /// The session after `ops`.
    pub open spec fn run(self, ops: Seq<SessionOp>) -> Self
        decreases ops.len(),
    {
        if ops.len() == 0 {
            self
        } else {
            self.run(ops.drop_last()).step(ops.last())
        }
    }

    /// What holds of a session that is being shaped: the shaper has counted just the bytes
    /// that wait, the record that they are in has room, and the buffer holds every record that
    /// the shaper aims for.
    pub open spec fn in_step(self) -> bool {
        &&& self.shaper.wf()
        &&& self.shaper.enabled
        &&& self.shaper.has_room()
        &&& self.wire.open.len() == self.shaper.pending
        &&& holds(self.wire.capacity, self.shaper.split_max)
    }
}

/// Whether every buffer that `ops` write is one that memory can hold.
pub open spec fn writable(ops: Seq<SessionOp>) -> bool {
    forall|i: int|
        0 <= i < ops.len() ==> match #[trigger] ops[i] {
            SessionOp::Write(buf) => buf.len() <= usize::MAX,
            _ => true,
        }
}

/// The wire of a session without a shaper, after one operation.
pub open spec fn plain_step(wire: Wire, op: SessionOp) -> Wire {
    match op {
        SessionOp::Enable => wire,
        SessionOp::MarkBurstHead => wire,
        SessionOp::Write(buf) => wire.write(buf),
        SessionOp::Flush => wire.flush(),
    }
}

/// The wire of a session without a shaper, after `ops`.
pub open spec fn plain_run(wire: Wire, ops: Seq<SessionOp>) -> Wire
    decreases ops.len(),
{
    if ops.len() == 0 {
        wire
    } else {
        plain_step(plain_run(wire, ops.drop_last()), ops.last())
    }
}

/// How many bursts `ops` announce.
pub open spec fn marks(ops: Seq<SessionOp>) -> nat
    decreases ops.len(),
{
    if ops.len() == 0 {
        0
    } else {
        marks(ops.drop_last()) + if ops.last() is MarkBurstHead {
            1nat
        } else {
            0nat
        }
    }
}

/// How many bursts `ops` announce to `session` between two records.
pub open spec fn fresh_marks(session: Session, ops: Seq<SessionOp>) -> nat
    decreases ops.len(),
{
    if ops.len() == 0 {
        0
    } else {
        let earlier: Seq<SessionOp> = ops.drop_last();
        fresh_marks(session, earlier) + if ops.last() is MarkBurstHead && session.run(
            earlier,
        ).wire.open.len() == 0 {
            1nat
        } else {
            0nat
        }
    }
}

/// Every byte that `ops` write, in order.
pub open spec fn written(ops: Seq<SessionOp>) -> Seq<u8>
    decreases ops.len(),
{
    if ops.len() == 0 {
        Seq::empty()
    } else {
        match ops.last() {
            SessionOp::Write(buf) => written(ops.drop_last()) + buf,
            _ => written(ops.drop_last()),
        }
    }
}

/// Doing `a` and then `b` is doing the two joined.
pub proof fn lemma_after_all_concat(
    wire: Wire,
    a: Seq<WriteAction>,
    b: Seq<WriteAction>,
    buf: Seq<u8>,
)
    ensures
        wire.after_all(a + b, buf) == wire.after_all(a, buf).after_all(b, buf),
    decreases a.len(),
{
    if a.len() == 0 {
        assert(a + b =~= b);
    } else {
        assert((a + b).skip(1) =~= a.skip(1) + b);
        lemma_after_all_concat(wire.after(a[0], buf), a.skip(1), b, buf);
    }
}

/// A flush changes nothing of what the peer reads.
pub proof fn lemma_flush_keeps_stream(wire: Wire)
    ensures
        wire.flush().stream() == wire.stream(),
{
    if wire.open.len() > 0 {
        assert(wire.sent.push(wire.open).drop_last() =~= wire.sent);
        assert(joined(wire.sent.push(wire.open)) == joined(wire.sent) + wire.open);
    }
    assert(wire.flush().stream() =~= wire.stream());
}

/// A single action, by itself.
pub proof fn lemma_after_all_one(wire: Wire, action: WriteAction, buf: Seq<u8>)
    ensures
        wire.after_all(seq![action], buf) == wire.after(action, buf),
{
    reveal_with_fuel(Wire::after_all, 2);
    assert(seq![action].skip(1) =~= Seq::<WriteAction>::empty());
}

/// What is written is what the peer reads next, whatever the buffer does.
pub proof fn lemma_write_keeps_stream(wire: Wire, bytes: Seq<u8>)
    ensures
        wire.write(bytes).stream() == wire.stream() + bytes,
        wire.write(bytes).capacity == wire.capacity,
{
    let ready: Wire = if wire.open.len() + bytes.len() > wire.capacity {
        wire.flush()
    } else {
        wire
    };
    lemma_flush_keeps_stream(wire);
    if bytes.len() == 0 {
        assert(wire.stream() + bytes =~= wire.stream());
    } else if bytes.len() >= wire.capacity {
        assert(ready.open.len() == 0);
        assert(ready.sent.push(bytes).drop_last() =~= ready.sent);
        assert(wire.write(bytes).stream() =~= ready.stream() + bytes);
    } else {
        assert(wire.write(bytes).stream() =~= ready.stream() + bytes);
    }
}

/// Bytes that fit the buffer wait in it.
pub proof fn lemma_write_fits(wire: Wire, bytes: Seq<u8>)
    requires
        wire.open.len() + bytes.len() <= wire.capacity,
        bytes.len() < wire.capacity,
    ensures
        wire.write(bytes) == wire.append(bytes),
{
    if bytes.len() == 0 {
        assert(wire.open + bytes =~= wire.open);
    }
}

/// Zeros that are written in chunks are read as that many zeros.
pub proof fn lemma_zero_stream(wire: Wire, left: usize, buf: Seq<u8>)
    ensures
        wire.after_all(crate::write_state::zero_trace(left), buf).stream() == wire.stream() + zeros(
            left as nat,
        ),
    decreases left,
{
    let chunk: usize = crate::write_state::ZERO_CHUNK;
    if left == 0 {
        assert(wire.stream() + zeros(0) =~= wire.stream());
    } else if left <= chunk {
        lemma_after_all_one(wire, WriteAction::Zeros { count: left }, buf);
        lemma_write_keeps_stream(wire, zeros(left as nat));
    } else {
        let first: Seq<WriteAction> = seq![WriteAction::Zeros { count: chunk }];
        let rest: usize = (left - chunk) as usize;
        lemma_after_all_concat(wire, first, crate::write_state::zero_trace(rest), buf);
        lemma_after_all_one(wire, WriteAction::Zeros { count: chunk }, buf);
        lemma_write_keeps_stream(wire, zeros(chunk as nat));
        lemma_zero_stream(wire.write(zeros(chunk as nat)), rest, buf);
        assert(wire.stream() + zeros(chunk as nat) + zeros(rest as nat) =~= wire.stream() + zeros(
            left as nat,
        ));
    }
}

/// Zeros that are written in chunks and fit behind what waits do wait there.
pub proof fn lemma_zero_trace(wire: Wire, left: usize, buf: Seq<u8>)
    requires
        wire.open.len() > 0,
        wire.open.len() + left <= wire.capacity,
    ensures
        wire.after_all(crate::write_state::zero_trace(left), buf) == wire.append(
            zeros(left as nat),
        ),
    decreases left,
{
    let chunk: usize = crate::write_state::ZERO_CHUNK;
    if left == 0 {
        assert(wire.open + zeros(0) =~= wire.open);
    } else if left <= chunk {
        lemma_after_all_one(wire, WriteAction::Zeros { count: left }, buf);
        lemma_write_fits(wire, zeros(left as nat));
    } else {
        let first: Seq<WriteAction> = seq![WriteAction::Zeros { count: chunk }];
        let rest: usize = (left - chunk) as usize;
        lemma_after_all_concat(wire, first, crate::write_state::zero_trace(rest), buf);
        lemma_after_all_one(wire, WriteAction::Zeros { count: chunk }, buf);
        lemma_write_fits(wire, zeros(chunk as nat));
        lemma_zero_trace(wire.append(zeros(chunk as nat)), rest, buf);
        assert(wire.open + zeros(chunk as nat) + zeros(rest as nat) =~= wire.open + zeros(
            left as nat,
        ));
    }
}

/// Flushing leaves nothing waiting, whatever waited before.
pub proof fn lemma_flush_empties(wire: Wire, s: ShaperModel)
    ensures
        wire.after_all(flush_trace(s), Seq::empty()).open.len() == 0,
{
    let none: Seq<u8> = Seq::empty();
    let trace: Seq<WriteAction> = flush_trace(s);
    let most: Seq<WriteAction> = trace.drop_last();
    assert(trace =~= most + seq![WriteAction::Flush]);
    lemma_after_all_concat(wire, most, seq![WriteAction::Flush], none);
    lemma_after_all_one(wire.after_all(most, none), WriteAction::Flush, none);
}

/// What flushing does to the stream: it puts the `Waste` frame behind it that fills the record
/// up, if it is to be filled.
pub proof fn lemma_flush_stream(wire: Wire, s: ShaperModel)
    requires
        s.wf(),
    ensures
        wire.after_all(flush_trace(s), Seq::empty()).stream() == if s.tail_padding() == 0 {
            wire.stream()
        } else {
            wire.stream() + crate::frame::waste_frame(s.tail_padding())
        },
{
    let none: Seq<u8> = Seq::empty();
    let pad: nat = s.tail_padding();
    if pad == 0 {
        lemma_after_all_one(wire, WriteAction::Flush, none);
        lemma_flush_keeps_stream(wire);
    } else {
        let header: WriteAction = WriteAction::WasteHeader { len: pad as usize };
        let left: usize = (pad - crate::frame::HEADER_SIZE) as usize;
        let trace: Seq<WriteAction> = crate::write_state::zero_trace(left);
        let headed: Wire = wire.write(waste_header_of(pad).bytes());
        let padded: Wire = headed.after_all(trace, none);
        lemma_after_all_concat(wire, seq![header] + trace, seq![WriteAction::Flush], none);
        lemma_after_all_concat(wire, seq![header], trace, none);
        lemma_after_all_one(wire, header, none);
        lemma_write_keeps_stream(wire, waste_header_of(pad).bytes());
        lemma_zero_stream(headed, left, none);
        lemma_after_all_one(padded, WriteAction::Flush, none);
        lemma_flush_keeps_stream(padded);
        assert(wire.stream() + waste_header_of(pad).bytes() + zeros(left as nat) =~= wire.stream()
            + crate::frame::waste_frame(pad));
    }
}

/// What flushing does to the wire of a session in step: the `Waste` frame that fills the
/// record up, if it is to be filled, waits with the rest of the record, and all of it is
/// flushed.
pub proof fn lemma_flush_wire(wire: Wire, s: ShaperModel)
    requires
        s.wf(),
        s.tail_padding() > 0 ==> wire.open.len() == s.pending && holds(wire.capacity, s.split_max),
    ensures
        wire.after_all(flush_trace(s), Seq::empty()) == if s.tail_padding() == 0 {
            wire.flush()
        } else {
            wire.append(crate::frame::waste_frame(s.tail_padding())).flush()
        },
{
    let none: Seq<u8> = Seq::empty();
    let pad: nat = s.tail_padding();
    if pad == 0 {
        lemma_after_all_one(wire, WriteAction::Flush, none);
    } else {
        let header: WriteAction = WriteAction::WasteHeader { len: pad as usize };
        let left: usize = (pad - crate::frame::HEADER_SIZE) as usize;
        let trace: Seq<WriteAction> = crate::write_state::zero_trace(left);
        let headed: Wire = wire.append(waste_header_of(pad).bytes());
        lemma_after_all_concat(wire, seq![header] + trace, seq![WriteAction::Flush], none);
        lemma_after_all_concat(wire, seq![header], trace, none);
        lemma_after_all_one(wire, header, none);
        lemma_write_fits(wire, waste_header_of(pad).bytes());
        lemma_zero_trace(headed, left, none);
        assert(wire.open + waste_header_of(pad).bytes() + zeros(left as nat) =~= wire.open
            + crate::frame::waste_frame(pad));
        lemma_after_all_one(
            wire.append(crate::frame::waste_frame(pad)),
            WriteAction::Flush,
            none,
        );
    }
}

} // verus!
