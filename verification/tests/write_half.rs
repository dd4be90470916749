//! The write half over a real buffered writer.

use std::cell::RefCell;
use std::io;
use std::pin::Pin;
use std::rc::Rc;
use std::task::{Context, Poll};

use downlink_padding::frame::{waste_header, Command, FrameHeader, HEADER_SIZE};
use downlink_padding::rng::SeedSource;
use downlink_padding::shaper::{DownlinkShaper, HEAD_MAX, HEAD_MIN, SPLIT_MAX, SPLIT_MIN};
use downlink_padding::write_state::{WriteAction, WriteState, ZERO_CHUNK};
use tokio::io::{AsyncWrite, AsyncWriteExt, BufWriter};
use tokio::runtime::{Builder, Runtime};

/// Test capacity, matching the production default.
const CAP: usize = 32 * 1024;

/// A writer that records the plaintext size of every `poll_write` call.
/// With a `BufWriter` in front, one `poll_write` == one emitted TLS record.
#[derive(Default, Clone)]
struct Log {
    records: Rc<RefCell<Vec<usize>>>,
    bytes: Rc<RefCell<Vec<u8>>>,
    broken: Rc<RefCell<bool>>,
}

impl Log {
    fn sizes(&self) -> Vec<usize> {
        self.records.borrow().clone()
    }
    fn stream(&self) -> Vec<u8> {
        self.bytes.borrow().clone()
    }
}

struct Recorder {
    log: Log,
}

impl AsyncWrite for Recorder {
    fn poll_write(
        self: Pin<&mut Self>,
        _cx: &mut Context<'_>,
        buf: &[u8],
    ) -> Poll<io::Result<usize>> {
        if *self.log.broken.borrow() {
            return Poll::Ready(Err(io::ErrorKind::BrokenPipe.into()));
        }
        self.log.records.borrow_mut().push(buf.len());
        self.log.bytes.borrow_mut().extend_from_slice(buf);
        Poll::Ready(Ok(buf.len()))
    }

    fn poll_flush(self: Pin<&mut Self>, _cx: &mut Context<'_>) -> Poll<io::Result<()>> {
        Poll::Ready(Ok(()))
    }

    fn poll_shutdown(self: Pin<&mut Self>, _cx: &mut Context<'_>) -> Poll<io::Result<()>> {
        Poll::Ready(Ok(()))
    }
}

/// The decisions and the writer that they are carried out on.
struct Half {
    rt: Runtime,
    w: BufWriter<Recorder>,
    state: WriteState,
}

impl Half {
    fn shaper(&self) -> &DownlinkShaper {
        self.state.shaper()
    }

    fn shaper_mut(&mut self) -> &mut DownlinkShaper {
        self.state.shaper_mut()
    }

    fn write_all(&mut self, buf: &[u8]) -> io::Result<()> {
        let first = self.state.write_all(buf.len());
        self.carry_out(first, buf)
    }

    fn flush(&mut self) -> io::Result<()> {
        let first = self.state.flush();
        self.carry_out(first, &[])
    }

    fn carry_out(&mut self, first: WriteAction, buf: &[u8]) -> io::Result<()> {
        let mut action = first;
        loop {
            match action {
                WriteAction::Payload { from, to } => {
                    self.rt.block_on(self.w.write_all(&buf[from..to]))?
                }
                WriteAction::WasteHeader { len } => {
                    self.rt.block_on(self.w.write_all(&waste_header(len)))?
                }
                WriteAction::Zeros { count } => {
                    self.rt.block_on(self.w.write_all(&[0u8; ZERO_CHUNK][..count]))?
                }
                WriteAction::Flush => self.rt.block_on(self.w.flush())?,
                WriteAction::Finished => return Ok(()),
            }
            action = self.state.completed();
        }
    }
}

fn half_with(shaper: DownlinkShaper, cap: usize) -> (Half, Log) {
    let log = Log::default();
    let half = Half {
        rt: Builder::new_current_thread().build().unwrap(),
        w: BufWriter::with_capacity(cap, Recorder { log: log.clone() }),
        state: WriteState::with_shaper(shaper),
    };
    (half, log)
}

/// `(write half, record-size log)`, mirroring how the session builds it.
///
/// `configured` is the operator's flag; `enable()` stands in for the peer's
/// v2 announcement. Only both together produce shaping.
fn setup(configured: bool) -> (Half, Log) {
    let log = Log::default();
    let mut source = SeedSource::new();
    let half = Half {
        rt: Builder::new_current_thread().build().unwrap(),
        w: BufWriter::with_capacity(CAP, Recorder { log: log.clone() }),
        state: WriteState::new(CAP, configured, source.epoch(), source.next_session()),
    };
    (half, log)
}

/// A `Recorder`-backed shaper in the state a live v2 session reaches: the
/// operator flag set and the peer's announcement received.
fn enabled_setup() -> (Half, Log) {
    let (mut ws, log) = setup(true);
    ws.shaper_mut().enable();
    assert!(ws.shaper().is_enabled());
    (ws, log)
}

/// A well-formed frame of `payload_len` zero bytes.
fn frame(command: Command, stream_id: u32, payload_len: usize) -> Vec<u8> {
    let mut hdr = [0u8; HEADER_SIZE];
    FrameHeader { command, stream_id, length: payload_len as u16 }.encode(&mut hdr);
    let mut buf = Vec::with_capacity(HEADER_SIZE + payload_len);
    buf.extend_from_slice(&hdr);
    buf.resize(HEADER_SIZE + payload_len, 0);
    buf
}

fn command_of(code: u8) -> Command {
    let all = [
        Command::Waste,
        Command::Psh,
        Command::Fin,
        Command::UpdatePaddingScheme,
        Command::SynAck,
        Command::ServerSettings,
    ];
    *all.iter().find(|c| c.code() == code).unwrap()
}

/// Walk the plaintext stream as frames; panics on a truncated or
/// desynchronised stream, which is what padding in the wrong place causes.
fn parse_frames(bytes: &[u8]) -> Vec<(Command, usize)> {
    let mut out = Vec::new();
    let mut i = 0;
    while i < bytes.len() {
        assert!(
            i + HEADER_SIZE <= bytes.len(),
            "trailing {} bytes cannot form a frame header",
            bytes.len() - i
        );
        let len = u16::from_be_bytes([bytes[i + 5], bytes[i + 6]]) as usize;
        assert!(
            i + HEADER_SIZE + len <= bytes.len(),
            "frame at {i} claims {len} payload bytes, stream ends at {}",
            bytes.len()
        );
        out.push((command_of(bytes[i]), len));
        i += HEADER_SIZE + len;
    }
    out
}

/// The record sizes a burst head is allowed to land in.
fn head_band() -> std::ops::RangeInclusive<usize> {
    HEAD_MIN..=HEAD_MAX
}

#[test]
fn test_configured_but_not_enabled_leaves_the_wire_untouched() {
    // The operator said yes, but no v2 settings ever arrived, the only thing that starts
    // shaping. Output must be exactly what it is without a shaper.
    let (mut ws, log) = setup(true);
    assert!(ws.shaper().is_configured());
    assert!(!ws.shaper().is_enabled());

    ws.shaper_mut().mark_burst_head();
    let syn_ack = frame(Command::SynAck, 1, 0);
    ws.write_all(&syn_ack).unwrap();
    let data = frame(Command::Psh, 1, 20_000);
    ws.write_all(&data).unwrap();
    ws.flush().unwrap();

    // One record, carrying the input verbatim: no split, no fill.
    assert_eq!(log.sizes(), vec![syn_ack.len() + data.len()]);
    let mut expected = syn_ack;
    expected.extend_from_slice(&data);
    assert_eq!(log.stream(), expected);
    assert_eq!(ws.shaper().counters().snapshot().records, 0);
}

#[test]
fn test_disabled_feature_stays_off_even_when_the_peer_announces_v2() {
    // The operator said no. A peer's v2 announcement must not override it.
    let (mut ws, log) = setup(false);
    ws.shaper_mut().enable();
    assert!(!ws.shaper().is_enabled());

    ws.write_all(&frame(Command::Psh, 1, 20_000)).unwrap();
    ws.flush().unwrap();

    assert_eq!(log.sizes(), vec![HEADER_SIZE + 20_000]);
    assert_eq!(ws.shaper().counters().snapshot().padded, 0);
}

#[test]
fn test_enabled_shaper_splits_large_records_and_reassembles_exactly() {
    let (mut ws, log) = enabled_setup();
    let data = frame(Command::Psh, 7, 64 * 1024);
    ws.write_all(&data).unwrap();
    ws.flush().unwrap();

    let sizes = log.sizes();
    assert!(
        sizes.len() >= 20,
        "64 KiB must not go out as a few huge records: {sizes:?}"
    );
    for (i, s) in sizes.iter().enumerate() {
        assert!(*s <= SPLIT_MAX, "record {i} of {sizes:?} exceeds SPLIT_MAX");
        assert!(*s > 0);
    }
    assert_eq!(
        sizes.iter().sum::<usize>(),
        data.len(),
        "splitting must neither add nor drop bytes"
    );
    assert_eq!(log.stream(), data, "payload must survive verbatim");
    assert_eq!(ws.shaper().counters().snapshot().padded, 0);
}

#[test]
fn test_split_sizes_vary_within_the_band() {
    let (mut ws, log) = enabled_setup();
    let data = frame(Command::Psh, 3, 400 * 1024);
    ws.write_all(&data).unwrap();
    ws.flush().unwrap();

    let sizes = log.sizes();
    assert!(
        sizes.len() > 100,
        "expected many records, got {}",
        sizes.len()
    );
    let distinct: std::collections::HashSet<_> = sizes.iter().collect();
    assert!(
        distinct.len() > 20,
        "record sizes must vary, not sit in a fixed pattern: {distinct:?}"
    );
    let min = *sizes.iter().min().unwrap();
    let max = *sizes.iter().max().unwrap();
    assert!(
        max >= min * 2,
        "band should be wide enough to look organic: min {min} max {max}"
    );
}

#[test]
fn test_burst_head_is_filled_and_padding_is_a_waste_frame() {
    let (mut ws, log) = enabled_setup();
    // Session head, as at connection start: the settings response is small.
    let settings = frame(Command::ServerSettings, 0, 3);
    ws.write_all(&settings).unwrap();
    ws.flush().unwrap();

    let sizes = log.sizes();
    assert_eq!(sizes.len(), 1);
    assert!(
        head_band().contains(&sizes[0]),
        "head record {} outside the fill band",
        sizes[0]
    );

    // The stream must read back as: the real frame, then one Waste frame
    // filling the rest of the record.
    let frames = parse_frames(&log.stream());
    assert_eq!(frames.len(), 2, "{frames:?}");
    assert_eq!(frames[0].0, Command::ServerSettings);
    assert_eq!(frames[1].0, Command::Waste);
    assert_eq!(
        HEADER_SIZE + frames[0].1 + HEADER_SIZE + frames[1].1,
        sizes[0],
        "padding must sit entirely inside the same record"
    );
    assert_eq!(
        ws.shaper().counters().snapshot().padded,
        (HEADER_SIZE + frames[1].1) as u64
    );
}

#[test]
fn test_every_connection_head_is_filled_not_just_the_session() {
    let (mut ws, log) = enabled_setup();
    // Session head first, then two proxied-connection heads.
    ws.write_all(&frame(Command::ServerSettings, 0, 3)).unwrap();
    ws.flush().unwrap();

    for stream_id in 1..=2u32 {
        ws.shaper_mut().mark_burst_head();
        let syn_ack = frame(Command::SynAck, stream_id, 0);
        ws.write_all(&syn_ack).unwrap();
        ws.flush().unwrap();
    }

    let sizes = log.sizes();
    assert_eq!(sizes.len(), 3);
    for (i, s) in sizes.iter().enumerate() {
        assert!(
            head_band().contains(s),
            "burst head {i} record {s} outside the fill band"
        );
    }
    // No 28-byte marker anywhere in the stream: that is the point.
    assert!(sizes.iter().all(|s| *s >= HEAD_MIN));
}

#[test]
fn test_data_tail_is_not_padded() {
    let (mut ws, log) = enabled_setup();
    // Burn the session head.
    ws.write_all(&frame(Command::Psh, 1, 8 * 1024)).unwrap();
    ws.flush().unwrap();
    let before = log.sizes().len();

    // A small data flush: a real server ends a burst with a partial record,
    // and padding every chatty one-line response would cost real money.
    ws.write_all(&frame(Command::Psh, 1, 40)).unwrap();
    ws.flush().unwrap();

    let sizes = log.sizes();
    assert_eq!(sizes[before], HEADER_SIZE + 40);
    assert_eq!(ws.shaper().counters().snapshot().padded, 0);
}

#[test]
fn test_interleaved_control_and_data_keep_frames_intact() {
    // The writer task releases the lock between commands, so a control frame
    // can land in the middle of a batch. Appending padding there would
    // corrupt the frame stream; this test fails if it ever does.
    let (mut ws, log) = enabled_setup();
    ws.write_all(&frame(Command::Psh, 1, 30_000)).unwrap();

    ws.shaper_mut().mark_burst_head();
    ws.write_all(&frame(Command::SynAck, 2, 0)).unwrap();
    ws.flush().unwrap();

    ws.write_all(&frame(Command::Psh, 2, 500)).unwrap();
    ws.write_all(&frame(Command::Fin, 2, 0)).unwrap();
    ws.flush().unwrap();

    let frames = parse_frames(&log.stream());
    let real: Vec<_> = frames
        .iter()
        .filter(|(c, _)| *c != Command::Waste)
        .cloned()
        .collect();
    assert_eq!(
        real,
        vec![
            (Command::Psh, 30_000),
            (Command::SynAck, 0),
            (Command::Psh, 500),
            (Command::Fin, 0),
        ]
    );
}

#[test]
fn test_padding_cost_is_bounded_in_absolute_bytes() {
    // 101 burst heads (one session head plus 100 proxied connections) over a
    // megabyte of payload, roughly a busy session's shape.
    const HEADS: usize = 100;
    const BULK: usize = 64;
    const BLOCK: usize = 16 * 1024;

    let (mut ws, _log) = enabled_setup();
    ws.write_all(&frame(Command::ServerSettings, 0, 3)).unwrap();
    ws.flush().unwrap();

    for stream_id in 1..=HEADS as u32 {
        ws.shaper_mut().mark_burst_head();
        ws.write_all(&frame(Command::SynAck, stream_id, 0)).unwrap();
        ws.flush().unwrap();
    }
    for _ in 0..BULK {
        ws.write_all(&frame(Command::Psh, 1, BLOCK)).unwrap();
        ws.flush().unwrap();
    }

    let stats = ws.shaper().counters().snapshot();
    // Absolute bound on purpose. A bound written in terms of HEAD_MAX (or any
    // other tuning constant) would still pass after the band is widened, so
    // it could not catch the one regression this assertion exists for:
    // 101 fills at an average of ~0.9 KiB is ~90 KiB, and 160 KiB is well
    // clear of it while still failing loudly if fills start averaging 1.6 KiB
    // or more.
    assert!(
        stats.padded <= 160 * 1024,
        "padding overhead too high: {stats:?}"
    );
    let (padding, payload) = stats.padding_fraction();
    assert!(
        padding as f64 / (payload as f64) < 0.12,
        "padding must stay a rounding error on real payload: {stats:?}"
    );
    // Every frame pays its own header, including each `Psh`.
    assert_eq!(
        stats.real_bytes(),
        (HEADER_SIZE + 3 + HEADS * HEADER_SIZE + BULK * (HEADER_SIZE + BLOCK)) as u64,
        "counters must not double count the padding as payload"
    );
}

#[test]
fn test_head_fill_stays_within_the_narrower_head_band() {
    // The fill band is intentionally cheaper than the split band: heads are
    // paid once per proxied connection, so they must not be filled to the
    // bulk top.
    let (mut ws, log) = enabled_setup();
    for stream_id in 1..=32u32 {
        ws.shaper_mut().mark_burst_head();
        ws.write_all(&frame(Command::SynAck, stream_id, 0)).unwrap();
        ws.flush().unwrap();
    }

    let sizes = log.sizes();
    assert_eq!(sizes.len(), 32);
    let max = *sizes.iter().max().unwrap();
    assert!(
        max < SPLIT_MAX,
        "head fill reached the bulk band top ({max} >= {SPLIT_MAX})"
    );
}

fn shaping(seed: u64, cap: usize) -> DownlinkShaper {
    let mut s = DownlinkShaper::with_seed(true, cap, seed);
    s.enable();
    s
}

#[test]
fn a_small_buffer_bounds_every_record() {
    for cap in [1usize, 8, 100, 322, 400, 513, 1500] {
        let (mut ws, log) = half_with(shaping(77, cap), cap);
        for stream_id in 1..=8u32 {
            ws.shaper_mut().mark_burst_head();
            ws.write_all(&frame(Command::SynAck, stream_id, 0)).unwrap();
            ws.flush().unwrap();
            ws.write_all(&frame(Command::Psh, stream_id, 3000)).unwrap();
            ws.flush().unwrap();
        }
        assert!(log.sizes().iter().all(|n| *n <= cap), "cap {cap}: {:?}", log.sizes());
        let stats = ws.shaper().counters().snapshot();
        assert_eq!(stats.records, log.sizes().len() as u64);
        assert_eq!(stats.bytes, log.stream().len() as u64);
        assert_eq!(stats.real_bytes(), 8 * (2 * HEADER_SIZE as u64 + 3000));
        parse_frames(&log.stream());
    }
}

#[test]
fn a_burst_starts_in_the_fill_band_whatever_its_length() {
    for len in [1usize, 7, 319, 320, 321, 900, 1399, 1400, 1401, 5000] {
        for seed in 0..20 {
            let (mut ws, log) = half_with(shaping(seed, CAP), CAP);
            ws.write_all(&vec![1; len]).unwrap();
            ws.flush().unwrap();
            assert!(head_band().contains(&log.sizes()[0]), "len {len}: {:?}", log.sizes());
        }
    }
}

#[test]
fn cuts_fall_on_the_targets() {
    let (mut ws, log) = half_with(shaping(5, CAP), CAP);
    let mut twin = shaping(5, CAP);
    ws.write_all(&vec![3; 20_000]).unwrap();
    ws.flush().unwrap();
    let sizes = log.sizes();
    for (i, size) in sizes[..sizes.len() - 1].iter().enumerate() {
        assert_eq!(*size, twin.target());
        if i > 0 {
            assert!((SPLIT_MIN..=SPLIT_MAX).contains(size));
        }
        twin.account(*size);
        twin.record_done(0);
    }
    assert!(*sizes.last().unwrap() <= twin.target());
}

#[test]
fn a_failed_flush_leaves_the_record_open() {
    let (mut ws, log) = half_with(shaping(5, CAP), CAP);
    ws.write_all(&[1; 10]).unwrap();
    *log.broken.borrow_mut() = true;
    assert!(ws.flush().is_err());
    // The padding was buffered, so it counts; the record was not emitted, so it does not.
    let pending = ws.shaper().pending();
    assert!(head_band().contains(&pending));
    assert_eq!(ws.shaper().counters().snapshot().records, 0);

    *log.broken.borrow_mut() = false;
    ws.flush().unwrap();
    assert_eq!(log.sizes(), vec![pending]);
    assert_eq!(ws.shaper().pending(), 0);
}

#[test]
fn a_failed_cut_leaves_the_full_record_open() {
    let (mut ws, log) = half_with(shaping(5, CAP), CAP);
    let target = ws.shaper().target();
    *log.broken.borrow_mut() = true;
    assert!(ws.write_all(&vec![1; 4000]).is_err());
    assert_eq!(ws.shaper().pending(), target);
    assert_eq!(ws.shaper().counters().snapshot().records, 0);
}

#[test]
fn the_steps_of_a_write_and_of_a_flush() {
    let mut state = WriteState::with_shaper(shaping(5, CAP));
    let target = state.shaper().target();
    assert!(target > ZERO_CHUNK + 20, "seed 5 fills in two chunks or more");
    assert_eq!(state.write_all(0), WriteAction::Finished);
    assert_eq!(state.write_all(10), WriteAction::Payload { from: 0, to: 10 });
    assert_eq!(state.shaper().pending(), 0);
    assert_eq!(state.completed(), WriteAction::Finished);
    assert_eq!(state.shaper().pending(), 10);

    let pad = target - 10;
    assert_eq!(state.flush(), WriteAction::WasteHeader { len: pad });
    let mut left = pad - HEADER_SIZE;
    while left > 0 {
        let count = left.min(ZERO_CHUNK);
        assert_eq!(state.completed(), WriteAction::Zeros { count });
        left -= count;
    }
    assert_eq!(state.shaper().pending(), 10);
    assert_eq!(state.completed(), WriteAction::Flush);
    assert_eq!(state.shaper().pending(), target);
    assert_eq!(state.completed(), WriteAction::Finished);
    assert_eq!(state.shaper().pending(), 0);
    assert_eq!(state.completed(), WriteAction::Finished);

    // The burst head is behind: what follows is not filled.
    state.write_all(10);
    state.completed();
    assert_eq!(state.flush(), WriteAction::Flush);
    assert_eq!(state.completed(), WriteAction::Finished);
}

#[test]
fn a_full_record_is_flushed_before_the_next_chunk() {
    let mut state = WriteState::with_shaper(shaping(5, CAP));
    let target = state.shaper().target();
    assert_eq!(state.write_all(target + 1), WriteAction::Payload { from: 0, to: target });
    assert_eq!(state.completed(), WriteAction::Flush);
    assert_eq!(
        state.completed(),
        WriteAction::Payload { from: target, to: target + 1 }
    );
    assert_eq!(state.completed(), WriteAction::Finished);
    assert_eq!(state.shaper().pending(), 1);
}

#[test]
fn the_shaper_counts_just_the_bytes_that_wait() {
    let (mut ws, log) = half_with(shaping(8, CAP), CAP);
    let mut handed = 0;
    for len in [5usize, 1000, 3000, 1, 0, 12_345, 700] {
        ws.write_all(&vec![9; len]).unwrap();
        handed += len;
        assert_eq!(ws.shaper().pending(), ws.w.buffer().len());
        assert_eq!(ws.shaper().pending() + log.stream().len(), handed);
        assert!(ws.shaper().pending() < ws.shaper().target());
    }
}

#[test]
fn an_empty_flush_changes_nothing() {
    let (mut ws, log) = half_with(shaping(8, CAP), CAP);
    let target = ws.shaper().target();
    ws.flush().unwrap();
    ws.flush().unwrap();
    assert_eq!(log.sizes(), vec![]);
    assert_eq!(ws.shaper().target(), target);
    assert_eq!(ws.shaper().counters().snapshot().records, 0);
}

#[test]
fn shaping_may_start_in_the_middle_of_a_session() {
    let (mut ws, log) = half_with(DownlinkShaper::with_seed(true, CAP, 8), CAP);
    ws.write_all(&frame(Command::Psh, 1, 100)).unwrap();
    ws.flush().unwrap();
    ws.shaper_mut().enable();
    ws.write_all(&frame(Command::ServerSettings, 0, 3)).unwrap();
    ws.flush().unwrap();
    assert_eq!(log.sizes()[0], HEADER_SIZE + 100);
    assert!(head_band().contains(&log.sizes()[1]));
    let frames = parse_frames(&log.stream());
    assert_eq!(frames[..2], [(Command::Psh, 100), (Command::ServerSettings, 3)]);
    assert_eq!(frames[2].0, Command::Waste);
    assert_eq!(frames.len(), 3);
}

#[test]
fn padding_is_paid_once_a_burst() {
    let (mut ws, _log) = half_with(shaping(8, CAP), CAP);
    let mut bursts = 1;
    for n in 0..200u32 {
        if n % 3 == 0 {
            ws.shaper_mut().mark_burst_head();
            bursts += 1;
        }
        ws.write_all(&frame(Command::Psh, n, 10)).unwrap();
        ws.flush().unwrap();
        let padded = ws.shaper().counters().snapshot().padded;
        assert!(padded <= (HEAD_MAX as u64 - 1) * bursts);
    }
}

#[test]
fn an_unshaped_buffer_sends_what_the_next_write_does_not_fit_behind() {
    let (mut ws, log) = setup(false);
    let buf = frame(Command::Psh, 1, 20_000);
    ws.write_all(&buf).unwrap();
    assert_eq!(log.sizes(), Vec::<usize>::new());
    ws.write_all(&buf).unwrap();
    assert_eq!(log.sizes(), vec![20_007]);
    ws.flush().unwrap();
    assert_eq!(log.sizes(), vec![20_007, 20_007]);
    assert_eq!(log.stream(), [buf.clone(), buf].concat());
}

#[test]
fn an_unshaped_write_that_fills_the_buffer_bypasses_it() {
    for len in [CAP, CAP + 1] {
        let (mut ws, log) = setup(false);
        ws.write_all(&[1u8; 10]).unwrap();
        ws.write_all(&vec![2u8; len]).unwrap();
        assert_eq!(log.sizes(), vec![10, len]);
        ws.flush().unwrap();
        assert_eq!(log.sizes(), vec![10, len], "nothing waits");
    }

    // One byte less than the buffer holds waits in it, and what fits exactly joins it.
    let (mut ws, log) = setup(false);
    ws.write_all(&vec![1u8; CAP - 1]).unwrap();
    ws.write_all(&[2u8]).unwrap();
    assert_eq!(log.sizes(), Vec::<usize>::new());
    ws.write_all(&[]).unwrap();
    ws.flush().unwrap();
    assert_eq!(log.sizes(), vec![CAP]);
}

#[test]
fn a_record_as_large_as_the_buffer_is_one_record() {
    // Both bands are cut down to the capacity, so that a write can fill the buffer by itself.
    for cap in [0, 1, 7, HEAD_MIN] {
        let (mut ws, log) = half_with(shaping(5, cap), cap);
        let top = cap.max(1);
        ws.write_all(&vec![3u8; 3 * top]).unwrap();
        ws.flush().unwrap();
        assert_eq!(log.sizes(), vec![top; 3], "over {cap}");
        assert_eq!(ws.shaper().counters().snapshot().records, 3);
    }
}

#[test]
fn how_a_payload_is_divided_into_writes_does_not_show() {
    let payload: Vec<u8> = (0..60_000u32).map(|i| (i % 251) as u8).collect();
    for cap in [600, 5_000, CAP] {
        for cut in [0, 1, 700, 1_500, 9_999, 40_000, 59_999, 60_000] {
            let (mut whole, whole_log) = half_with(shaping(21, cap), cap);
            let (mut parts, parts_log) = half_with(shaping(21, cap), cap);
            whole.write_all(&payload).unwrap();
            parts.write_all(&payload[..cut]).unwrap();
            parts.write_all(&payload[cut..]).unwrap();
            assert_eq!(parts_log.sizes(), whole_log.sizes(), "cut at {cut} over {cap}");
            assert_eq!(parts_log.stream(), whole_log.stream());
            assert_eq!(parts.w.buffer(), whole.w.buffer());
            assert_eq!(parts.shaper().pending(), whole.shaper().pending());
            assert_eq!(parts.shaper().target(), whole.shaper().target());
            assert_eq!(
                parts.shaper().counters().snapshot(),
                whole.shaper().counters().snapshot()
            );
        }
    }
}

#[test]
fn bytes_from_before_shaping_make_the_division_show() {
    // These were not counted, so that here the buffered writer cuts, between two writes.
    let run = |writes: &[usize]| {
        let (mut ws, log) = half_with(DownlinkShaper::with_seed(true, CAP, 4), CAP);
        ws.write_all(&vec![0u8; CAP - 1]).unwrap();
        ws.shaper_mut().enable();
        for n in writes {
            ws.write_all(&vec![1u8; *n]).unwrap();
        }
        ws.flush().unwrap();
        log.sizes()[0]
    };
    assert_eq!(run(&[1, 1]), CAP);
    assert_eq!(run(&[2]), CAP - 1);
}
