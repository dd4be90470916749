//! The write half's decisions, one I/O operation at a time.
//!
//! Writing framed bytes and flushing them both alternate I/O with decisions of the shaper.
//! [`WriteState`] makes the decisions: it names the next thing to do to the buffered writer,
//! a caller does it, and, once it succeeded, asks for what follows. A caller whose I/O
//! failed, or was abandoned, just stops asking: the shaper is then left as of the last thing
//! that did succeed, and the next operation starts afresh.

use crate::frame::HEADER_SIZE;
use crate::shaper::{lemma_record_done, DownlinkShaper, ShaperModel};
use vstd::prelude::*;

verus! {

/// Most zero bytes that are handed to the writer at once.
pub const ZERO_CHUNK: usize = 512;

/// What to do to the buffered writer next.
#[derive(Debug, Clone, Copy, PartialEq, Eq, Structural)]
pub enum WriteAction {
    /// Write the bytes `from..to` of the buffer that is being written.
    Payload { from: usize, to: usize },
    /// Write the header of a `Waste` frame of `len` bytes in all.
    WasteHeader { len: usize },
    /// Write `count` zero bytes.
    Zeros { count: usize },
    /// Flush: what is buffered becomes one record.
    Flush,
    /// Nothing: the operation is complete.
    Finished,
}

/// Where an operation stands: what was handed out last, and what it takes to go on.
#[derive(Debug, Clone, Copy, PartialEq, Eq, Structural)]
pub enum Stage {
    /// No operation is under way.
    Idle,
    /// Writing `len` bytes: `from..to` was handed out.
    Writing { len: usize, from: usize, to: usize },
    /// Writing `len` bytes: `at` are written, and the flush of a full record was handed out.
    Cut { len: usize, at: usize },
    /// Flushing with `pad` bytes of padding: the padding's header was handed out.
    WasteHead { pad: usize },
    /// Flushing with `pad` bytes of padding: `count` zeros were handed out and `left` more
    /// come after them.
    WasteZeros { pad: usize, count: usize, left: usize },
    /// Flushing with `pad` bytes of padding: the flush was handed out.
    Closing { pad: usize },
}

/// Everything that writing the bytes `at..len` of a buffer does to the writer: chunks as
/// large as the shaper's budget allows, and a flush whenever a record is full.
pub open spec fn write_trace(s: ShaperModel, at: usize, len: usize) -> Seq<WriteAction>
    decreases len - at,
{
    if at >= len {
        Seq::empty()
    } else {
        let to: usize = chunk_end(s, at, len);
        let written: ShaperModel = s.account((to - at) as nat);
        seq![WriteAction::Payload { from: at, to }] + if written.full() {
            seq![WriteAction::Flush] + write_trace(written.record_done(0), to, len)
        } else {
            write_trace(written, to, len)
        }
    }
}

/// The shaper once the bytes `at..len` of a buffer are written.
pub open spec fn write_outcome(s: ShaperModel, at: usize, len: usize) -> ShaperModel
    decreases len - at,
{
    if at >= len {
        s
    } else {
        let to: usize = chunk_end(s, at, len);
        let written: ShaperModel = s.account((to - at) as nat);
        if written.full() {
            write_outcome(written.record_done(0), to, len)
        } else {
            write_outcome(written, to, len)
        }
    }
}

/// Where the chunk that starts at `at` ends.
pub open spec fn chunk_end(s: ShaperModel, at: usize, len: usize) -> usize {
    if s.budget() < len - at {
        (at + s.budget()) as usize
    } else {
        len
    }
}

/// Writing `left` zero bytes, in chunks.
pub open spec fn zero_trace(left: usize) -> Seq<WriteAction>
    decreases left,
{
    if left == 0 {
        Seq::empty()
    } else if left <= ZERO_CHUNK {
        seq![WriteAction::Zeros { count: left }]
    } else {
        seq![WriteAction::Zeros { count: ZERO_CHUNK }] + zero_trace((left - ZERO_CHUNK) as usize)
    }
}

/// Everything that ending the record being built does to the writer: the `Waste` frame that
/// fills it up, where it is to be filled, and the flush.
pub open spec fn flush_trace(s: ShaperModel) -> Seq<WriteAction> {
    let pad: nat = s.tail_padding();
    if pad == 0 {
        seq![WriteAction::Flush]
    } else {
        seq![WriteAction::WasteHeader { len: pad as usize }] + zero_trace(
            (pad - HEADER_SIZE) as usize,
        ) + seq![WriteAction::Flush]
    }
}

/// The shaper once the record being built is ended.
pub open spec fn flush_outcome(s: ShaperModel) -> ShaperModel {
    s.account(s.tail_padding()).record_done(s.tail_padding())
}

/// Whether `action`, and after it `rest`, is what `trace` holds; nothing is left to do where
/// it holds nothing.
pub open spec fn leads(
    trace: Seq<WriteAction>,
    action: WriteAction,
    rest: Seq<WriteAction>,
) -> bool {
    if trace.len() == 0 {
        action == WriteAction::Finished && rest.len() == 0
    } else {
        &&& action != WriteAction::Finished
        &&& action == trace[0]
        &&& rest == trace.skip(1)
    }
}

/// The front of a joined trace, and the rest of it.
proof fn lemma_leads(action: WriteAction, rest: Seq<WriteAction>)
    requires
        action != WriteAction::Finished,
    ensures
        leads(seq![action] + rest, action, rest),
{
    assert((seq![action] + rest).skip(1) =~= rest);
}

/// A write half in the abstract.
pub struct WriteModel {
    pub shaper: ShaperModel,
    pub stage: Stage,
}

impl WriteModel {
    /// What holds of every write half.
    pub open spec fn wf(self) -> bool {
        &&& self.shaper.wf()
        &&& match self.stage {
            Stage::Idle => true,
            Stage::Writing { len, from, to } => {
                &&& from < to <= len
                &&& to - from <= self.shaper.budget()
                &&& self.shaper.enabled ==> self.shaper.pending < usize::MAX
            },
            Stage::Cut { len, at } => at <= len,
            Stage::WasteHead { pad } => 0 < pad == self.shaper.tail_padding(),
            Stage::WasteZeros { pad, count, left } => {
                &&& 0 < pad == self.shaper.tail_padding()
                &&& 0 < count <= ZERO_CHUNK
            },
            Stage::Closing { pad } => true,
        }
    }

    /// What was handed out last and has not been reported done.
    pub open spec fn outstanding(self) -> WriteAction {
        match self.stage {
            Stage::Idle => WriteAction::Finished,
            Stage::Writing { len, from, to } => WriteAction::Payload { from, to },
            Stage::Cut { len, at } => WriteAction::Flush,
            Stage::WasteHead { pad } => WriteAction::WasteHeader { len: pad },
            Stage::WasteZeros { pad, count, left } => WriteAction::Zeros { count },
            Stage::Closing { pad } => WriteAction::Flush,
        }
    }

    /// The shaper once what is outstanding is done: bytes are accounted for when they were
    /// written, padding when the whole frame was, and a record is done when it was flushed.
    pub open spec fn advanced(self) -> ShaperModel {
        match self.stage {
            Stage::Idle => self.shaper,
            Stage::Writing { len, from, to } => self.shaper.account((to - from) as nat),
            Stage::Cut { len, at } => self.shaper.record_done(0),
            Stage::WasteHead { pad } => if pad <= HEADER_SIZE {
                self.shaper.account(pad as nat)
            } else {
                self.shaper
            },
            Stage::WasteZeros { pad, count, left } => if left == 0 {
                self.shaper.account(pad as nat)
            } else {
                self.shaper
            },
            Stage::Closing { pad } => self.shaper.record_done(pad as nat),
        }
    }

    /// What the operation under way still does after what is outstanding.
    pub open spec fn remaining(self) -> Seq<WriteAction> {
        match self.stage {
            Stage::Idle => Seq::empty(),
            Stage::Writing { len, from, to } => if self.advanced().full() {
                seq![WriteAction::Flush] + write_trace(self.advanced().record_done(0), to, len)
            } else {
                write_trace(self.advanced(), to, len)
            },
            Stage::Cut { len, at } => write_trace(self.advanced(), at, len),
            Stage::WasteHead { pad } => zero_trace((pad - HEADER_SIZE) as usize)
                + seq![WriteAction::Flush],
            Stage::WasteZeros { pad, count, left } => zero_trace(left) + seq![WriteAction::Flush],
            Stage::Closing { pad } => Seq::empty(),
        }
    }

    /// The shaper once the operation under way is complete.
    pub open spec fn outcome(self) -> ShaperModel {
        match self.stage {
            Stage::Idle => self.shaper,
            Stage::Writing { len, from, to } => if self.advanced().full() {
                write_outcome(self.advanced().record_done(0), to, len)
            } else {
                write_outcome(self.advanced(), to, len)
            },
            Stage::Cut { len, at } => write_outcome(self.advanced(), at, len),
            Stage::WasteHead { pad } => self.shaper.account(pad as nat).record_done(pad as nat),
            Stage::WasteZeros { pad, count, left } => self.shaper.account(pad as nat).record_done(
                pad as nat,
            ),
            Stage::Closing { pad } => self.shaper.record_done(pad as nat),
        }
    }
}

/// The downlink write half's decisions: the shaper, and where the operation under way
/// stands.
///
/// The buffered writer and this must share one lock. A session writes downlink bytes
/// through two paths, a writer task for data frames and direct writers for control frames,
/// and a shaper that only saw the data path would leave the session's first records, which
/// *are* control frames, unshaped.
#[derive(Debug)]
pub struct WriteState {
    shaper: DownlinkShaper,
    stage: Stage,
}

impl View for WriteState {
    type V = WriteModel;

    closed spec fn view(&self) -> WriteModel {
        WriteModel { shaper: self.shaper@, stage: self.stage }
    }
}

impl WriteState {
    /// What holds of every write half.
    pub open spec fn wf(&self) -> bool {
        self@.wf()
    }

    /// The write half over a buffer of `buf_capacity` bytes, for session number `session` of a
    /// process whose one reading of the clock is `epoch`.
    pub fn new(
        buf_capacity: usize,
        downlink_padding: bool,
        epoch: Option<u128>,
        session: u64,
    ) -> (state: Self)
        ensures
            state.wf(),
            state@ == (WriteModel {
                shaper: ShaperModel::seeded(
                    downlink_padding,
                    buf_capacity as nat,
                    crate::rng::session_seed(epoch, session),
                ),
                stage: Stage::Idle,
            }),
    {
        Self::with_shaper(DownlinkShaper::new(downlink_padding, buf_capacity, epoch, session))
    }

    /// A write half around `shaper`.
    pub fn with_shaper(shaper: DownlinkShaper) -> (state: Self)
        requires
            shaper.wf(),
        ensures
            state.wf(),
            state@ == (WriteModel { shaper: shaper@, stage: Stage::Idle }),
    {
        WriteState { shaper, stage: Stage::Idle }
    }

    /// The shaper.
    pub fn shaper(&self) -> (shaper: &DownlinkShaper)
        ensures
            shaper@ == self@.shaper,
    {
        &self.shaper
    }

    /// The shaper, to switch it on or to mark a burst head. An operation that is under way
    /// is abandoned.
    pub fn shaper_mut(&mut self) -> (shaper: &mut DownlinkShaper)
        ensures
            shaper@ == old(self)@.shaper,
            final(self)@ == (WriteModel { shaper: final(shaper)@, stage: Stage::Idle }),
    {
        self.stage = Stage::Idle;
        &mut self.shaper
    }

    /// Begins to write `buf_len` framed bytes, ending the current TLS record whenever it
    /// reaches the shaper's target size, and says what to do first.
    ///
    /// Callers hand over whole frames; a cut point can land in the middle of a
    /// frame, which is invisible to the peer because frames are recovered from a
    /// byte stream, not from record boundaries. The lock is held for the whole
    /// operation, so no other writer can append behind a half-written frame,
    /// which is also why this path never pads: a record cut here may end
    /// mid-frame, and padding behind a partial frame would desynchronise the
    /// peer's frame parser.
    pub fn write_all(&mut self, buf_len: usize) -> (action: WriteAction)
        requires
            old(self).wf(),
            old(self)@.shaper.enabled && buf_len > 0 ==> old(self)@.shaper.pending < usize::MAX,
        ensures
            final(self).wf(),
            action == final(self)@.outstanding(),
            final(self)@.shaper == old(self)@.shaper,
            leads(write_trace(old(self)@.shaper, 0, buf_len), action, final(self)@.remaining()),
            final(self)@.outcome() == write_outcome(old(self)@.shaper, 0, buf_len),
    {
        self.write_from(0, buf_len)
    }

    /// Begins to flush the buffered bytes as one record, filling a burst head up into the
    /// band first so that the head is not a tiny giveaway, and says what to do first.
    pub fn flush(&mut self) -> (action: WriteAction)
        requires
            old(self).wf(),
        ensures
            final(self).wf(),
            action == final(self)@.outstanding(),
            final(self)@.shaper == old(self)@.shaper,
            leads(flush_trace(old(self)@.shaper), action, final(self)@.remaining()),
            final(self)@.outcome() == flush_outcome(old(self)@.shaper),
    {
        let pad: usize = self.shaper.tail_padding();
        if pad > 0 {
            self.stage = Stage::WasteHead { pad };
            proof {
                let zeros: Seq<WriteAction> = zero_trace((pad - HEADER_SIZE) as usize);
                let header: Seq<WriteAction> = seq![WriteAction::WasteHeader { len: pad }];
                let close: Seq<WriteAction> = seq![WriteAction::Flush];
                assert(header + zeros + close =~= header + (zeros + close));
                lemma_leads(WriteAction::WasteHeader { len: pad }, zeros + close);
            }
            WriteAction::WasteHeader { len: pad }
        } else {
            self.stage = Stage::Closing { pad: 0 };
            proof {
                let close: Seq<WriteAction> = seq![WriteAction::Flush];
                assert(close =~= close + Seq::<WriteAction>::empty());
                lemma_leads(WriteAction::Flush, Seq::empty());
            }
            WriteAction::Flush
        }
    }

    /// What was handed out last is done: books it with the shaper and says what to do next.
    pub fn completed(&mut self) -> (action: WriteAction)
        requires
            old(self).wf(),
        ensures
            final(self).wf(),
            action == final(self)@.outstanding(),
            final(self)@.shaper == old(self)@.advanced(),
            leads(old(self)@.remaining(), action, final(self)@.remaining()),
            final(self)@.outcome() == old(self)@.outcome(),
    {
        match self.stage {
            Stage::Idle => WriteAction::Finished,
            Stage::Writing { len, from, to } => {
                if self.shaper.account(to - from) {
                    self.stage = Stage::Cut { len, at: to };
                    proof {
                        lemma_leads(WriteAction::Flush, self@.remaining());
                    }
                    WriteAction::Flush
                } else {
                    self.write_from(to, len)
                }
            },
            Stage::Cut { len, at } => {
                proof {
                    lemma_record_done(self.shaper@, 0);
                }
                self.shaper.record_done(0);
                self.write_from(at, len)
            },
            Stage::WasteHead { pad } => self.pad_with(pad, pad - HEADER_SIZE),
            Stage::WasteZeros { pad, count, left } => self.pad_with(pad, left),
            Stage::Closing { pad } => {
                self.shaper.record_done(pad);
                self.stage = Stage::Idle;
                WriteAction::Finished
            },
        }
    }

    /// Goes on with writing `len` bytes, `at` of which are written.
    fn write_from(&mut self, at: usize, len: usize) -> (action: WriteAction)
        requires
            old(self)@.shaper.wf(),
            old(self)@.shaper.enabled && at < len ==> old(self)@.shaper.pending < usize::MAX,
        ensures
            final(self).wf(),
            action == final(self)@.outstanding(),
            final(self)@.shaper == old(self)@.shaper,
            leads(write_trace(old(self)@.shaper, at, len), action, final(self)@.remaining()),
            final(self)@.outcome() == write_outcome(old(self)@.shaper, at, len),
    {
        if at >= len {
            self.stage = Stage::Idle;
            return WriteAction::Finished;
        }
        let budget: usize = self.shaper.write_budget();
        let to: usize = if budget < len - at {
            at + budget
        } else {
            len
        };
        self.stage = Stage::Writing { len, from: at, to };
        proof {
            lemma_leads(WriteAction::Payload { from: at, to }, self@.remaining());
        }
        WriteAction::Payload { from: at, to }
    }

    /// Goes on with `pad` bytes of padding, `left` of which, all zeros, are not written.
    fn pad_with(&mut self, pad: usize, left: usize) -> (action: WriteAction)
        requires
            old(self)@.shaper.wf(),
            0 < pad == old(self)@.shaper.tail_padding(),
        ensures
            final(self).wf(),
            action == final(self)@.outstanding(),
            final(self)@.shaper == if left == 0 {
                old(self)@.shaper.account(pad as nat)
            } else {
                old(self)@.shaper
            },
            leads(zero_trace(left) + seq![WriteAction::Flush], action, final(self)@.remaining()),
            final(self)@.outcome() == old(self)@.shaper.account(pad as nat).record_done(
                pad as nat,
            ),
    {
        let ghost close: Seq<WriteAction> = seq![WriteAction::Flush];
        if left > 0 {
            let count: usize = if left < ZERO_CHUNK {
                left
            } else {
                ZERO_CHUNK
            };
            self.stage = Stage::WasteZeros { pad, count, left: left - count };
            proof {
                let chunk: Seq<WriteAction> = seq![WriteAction::Zeros { count }];
                assert(zero_trace(left) =~= chunk + zero_trace((left - count) as usize));
                assert(zero_trace(left) + close =~= chunk + (zero_trace((left - count) as usize)
                    + close));
                lemma_leads(
                    WriteAction::Zeros { count },
                    zero_trace((left - count) as usize) + close,
                );
            }
            return WriteAction::Zeros { count };
        }
        self.shaper.account(pad);
        self.stage = Stage::Closing { pad };
        proof {
            assert(zero_trace(left) + close =~= close + Seq::<WriteAction>::empty());
            lemma_leads(WriteAction::Flush, Seq::empty());
        }
        WriteAction::Flush
    }
}

/// Law: a trace is handed out from its front. An action that leads a trace, with what is left
/// put behind it, is the trace; and nothing but an empty trace is finished.
pub proof fn law_a_trace_is_handed_out_in_order(
    trace: Seq<WriteAction>,
    action: WriteAction,
    rest: Seq<WriteAction>,
)
    requires
        leads(trace, action, rest),
    ensures
        action == WriteAction::Finished <==> trace.len() == 0,
        action == WriteAction::Finished ==> rest.len() == 0,
        action != WriteAction::Finished ==> trace == seq![action] + rest,
{
    if trace.len() > 0 {
        assert(trace =~= seq![action] + rest);
    }
}

/// Law: only what was done is booked. Payload counts when it was written, and just as many
/// bytes as were written; padding counts as a whole when its last piece was written, and not
/// before; a record is ended when it was flushed. Nothing else moves the shaper, and with the
/// last thing done it is where the operation leaves it.
pub proof fn law_progress_is_booked_when_it_is_made(m: WriteModel)
    requires
        m.wf(),
    ensures
        m.outstanding() == WriteAction::Finished ==> m.advanced() == m.shaper
            && m.remaining().len() == 0,
        m.remaining().len() == 0 ==> m.advanced() == m.outcome(),
        m.outstanding() matches WriteAction::Payload { from, to } ==> m.advanced()
            == m.shaper.account((to - from) as nat),
        m.outstanding() is WasteHeader || m.outstanding() is Zeros ==> {
            &&& m.remaining().len() > 0
            &&& m.remaining()[0] is Zeros || m.remaining()[0] is Flush
            &&& m.remaining()[0] is Zeros ==> m.advanced() == m.shaper
            &&& m.remaining()[0] is Flush ==> m.advanced() == m.shaper.account(
                m.shaper.tail_padding(),
            )
        },
        m.outstanding() is Flush && m.shaper.enabled && m.shaper.pending > 0 ==> {
            &&& m.advanced().pending == 0
            &&& m.advanced().stats.records == m.shaper.stats.records.wrapping_add(1)
            &&& m.advanced().stats.bytes == m.shaper.stats.bytes.wrapping_add(
                m.shaper.pending as u64,
            )
        },
{
    lemma_record_done(m.shaper, 0);
    match m.stage {
        Stage::WasteHead { pad } => {
            let left: usize = (pad - HEADER_SIZE) as usize;
            assert(m.remaining()[0] == if left == 0 {
                WriteAction::Flush
            } else {
                zero_trace(left)[0]
            });
        },
        Stage::WasteZeros { pad, count, left } => {
            assert(m.remaining()[0] == if left == 0 {
                WriteAction::Flush
            } else {
                zero_trace(left)[0]
            });
        },
        Stage::Closing { pad } => {
            lemma_record_done(m.shaper, pad as nat);
        },
        _ => {},
    }
}

} // verus!
