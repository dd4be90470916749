//! The frames of the tunnel protocol, as far as shaping deals in them.
//!
//! A frame is a header of [`HEADER_SIZE`] bytes followed by a payload: one byte of command,
//! four of stream id and two of payload length, integers in network byte order. A peer
//! recovers frames from the byte stream alone; record boundaries mean nothing to it.

use vstd::prelude::*;

verus! {

/// Bytes of a frame's header.
pub const HEADER_SIZE: usize = 7;

/// What a frame asks of the peer.
#[derive(Debug, Clone, Copy, PartialEq, Eq, Structural)]
pub enum Command {
    /// Padding: read out completely and discarded silently.
    Waste,
    /// Stream data.
    Psh,
    /// End of a stream.
    Fin,
    /// A new padding scheme for the client.
    UpdatePaddingScheme,
    /// The server accepted a stream.
    SynAck,
    /// The server's side of the settings exchange.
    ServerSettings,
}

impl Command {
    /// The command's byte on the wire.
    pub open spec fn spec_code(self) -> u8 {
        match self {
            Command::Waste => 0,
            Command::Psh => 2,
            Command::Fin => 3,
            Command::UpdatePaddingScheme => 6,
            Command::SynAck => 7,
            Command::ServerSettings => 10,
        }
    }

    /// The command's byte on the wire.
    pub fn code(self) -> (code: u8)
        ensures
            code == self.spec_code(),
    {
        match self {
            Command::Waste => 0,
            Command::Psh => 2,
            Command::Fin => 3,
            Command::UpdatePaddingScheme => 6,
            Command::SynAck => 7,
            Command::ServerSettings => 10,
        }
    }
}

/// The fixed part of a frame.
#[derive(Debug, Clone, Copy, PartialEq, Eq, Structural)]
pub struct FrameHeader {
    pub command: Command,
    pub stream_id: u32,
    /// Bytes of payload that follow the header.
    pub length: u16,
}

impl FrameHeader {
    /// The header on the wire.
    pub open spec fn bytes(self) -> Seq<u8> {
        seq![
            self.command.spec_code(),
            (self.stream_id / 0x100_0000) as u8,
            ((self.stream_id / 0x1_0000) % 0x100) as u8,
            ((self.stream_id / 0x100) % 0x100) as u8,
            (self.stream_id % 0x100) as u8,
            (self.length / 0x100) as u8,
            (self.length % 0x100) as u8,
        ]
    }

    /// Writes the header to `out`.
    pub fn encode(&self, out: &mut [u8; HEADER_SIZE])
        ensures
            final(out)@ == self.bytes(),
    {
        let id: u32 = self.stream_id;
        let length: u16 = self.length;
        *out = [
            self.command.code(),
            (id / 0x100_0000) as u8,
            ((id / 0x1_0000) % 0x100) as u8,
            ((id / 0x100) % 0x100) as u8,
            (id % 0x100) as u8,
            (length / 0x100) as u8,
            (length % 0x100) as u8,
        ];
    }
}

/// The header of a `Waste` frame of `len` bytes in all.
pub open spec fn waste_header_of(len: nat) -> FrameHeader {
    FrameHeader {
        command: Command::Waste,
        stream_id: 0,
        length: (len - HEADER_SIZE) as u16,
    }
}

/// `count` zero bytes.
pub open spec fn zeros(count: nat) -> Seq<u8> {
    Seq::new(count, |i: int| 0u8)
}

/// A `Waste` frame of `len` bytes in all: the header, then zeros.
pub open spec fn waste_frame(len: nat) -> Seq<u8> {
    waste_header_of(len).bytes() + zeros((len - HEADER_SIZE) as nat)
}

/// The encoded header of a `Waste` frame of `len` bytes in all.
///
/// A frame's payload length has 16 bits, which bounds what one frame can fill.
pub fn waste_header(len: usize) -> (header: [u8; HEADER_SIZE])
    requires
        HEADER_SIZE <= len <= HEADER_SIZE + 0xFFFF,
    ensures
        header@ == waste_header_of(len as nat).bytes(),
{
    let mut header: [u8; HEADER_SIZE] = [0; HEADER_SIZE];
    FrameHeader {
        command: Command::Waste,
        stream_id: 0,
        length: (len - HEADER_SIZE) as u16,
    }.encode(&mut header);
    header
}

/// How many bytes the frame at the front of `stream` has in all, by its header.
pub open spec fn frame_len(stream: Seq<u8>) -> nat
    recommends
        stream.len() >= HEADER_SIZE,
{
    (HEADER_SIZE + 0x100 * stream[5] + stream[6]) as nat
}

/// `stream` read as frames from its first byte to its last; `None` where it ends inside
/// a frame.
pub open spec fn frames(stream: Seq<u8>) -> Option<Seq<Seq<u8>>>
    decreases stream.len(),
{
    if stream.len() == 0 {
        Some(Seq::empty())
    } else if stream.len() < HEADER_SIZE || stream.len() < frame_len(stream) {
        None
    } else {
        let n: int = frame_len(stream) as int;
        match frames(stream.skip(n)) {
            Some(rest) => Some(seq![stream.take(n)] + rest),
            None => None,
        }
    }
}

/// Whether a frame is padding.
pub open spec fn is_waste(frame: Seq<u8>) -> bool {
    frame[0] == Command::Waste.spec_code()
}

/// The frames of `all` that a peer does not discard, in order.
pub open spec fn real_frames(all: Seq<Seq<u8>>) -> Seq<Seq<u8>> {
    all.filter(|frame: Seq<u8>| !is_waste(frame))
}

/// Reading `a` and then `b` as frames reads the two joined, where `a` ends between frames.
pub proof fn lemma_frames_concat(a: Seq<u8>, b: Seq<u8>)
    requires
        frames(a) is Some,
    ensures
        frames(a + b) == match frames(b) {
            Some(rest) => Some(frames(a).unwrap() + rest),
            None => None,
        },
    decreases a.len(),
{
    if a.len() == 0 {
        assert(a + b =~= b);
        if let Some(rest) = frames(b) {
            assert(frames(a).unwrap() + rest =~= rest);
        }
    } else {
        let n: int = frame_len(a) as int;
        lemma_frames_concat(a.skip(n), b);
        assert((a + b).skip(n) =~= a.skip(n) + b);
        assert((a + b).take(n) =~= a.take(n));
        if let Some(rest) = frames(b) {
            assert(seq![a.take(n)] + (frames(a.skip(n)).unwrap() + rest) =~= frames(a).unwrap()
                + rest);
        }
    }
}

/// A `Waste` frame reads as the one frame that it is.
pub proof fn lemma_waste_frame_is_one_frame(len: nat)
    requires
        HEADER_SIZE <= len <= HEADER_SIZE + 0xFFFF,
    ensures
        waste_frame(len).len() == len,
        frames(waste_frame(len)) == Some(seq![waste_frame(len)]),
        is_waste(waste_frame(len)),
{
    let frame: Seq<u8> = waste_frame(len);
    reveal_with_fuel(frames, 2);
    assert(frame_len(frame) == len);
    assert(frame.skip(len as int) =~= Seq::<u8>::empty());
    assert(frame.take(len as int) =~= frame);
    assert(seq![frame] + Seq::<Seq<u8>>::empty() =~= seq![frame]);
}

/// Law: a header reads back. Its bytes are the command's, then the stream id and the payload
/// length as digits to the base 256, the greatest first.
pub proof fn law_a_header_reads_back(header: FrameHeader)
    ensures
        ({
            let b: Seq<u8> = header.bytes();
            &&& b.len() == 7
            &&& b[0] == header.command.spec_code()
            &&& header.stream_id == 0x100_0000 * b[1] + 0x1_0000 * b[2] + 0x100 * b[3] + b[4]
            &&& header.length == 0x100 * b[5] + b[6]
        }),
{
}

/// Law: a peer can tell the commands apart.
pub proof fn law_commands_have_their_own_bytes(a: Command, b: Command)
    ensures
        a.spec_code() == b.spec_code() ==> a == b,
        a.spec_code() == 0 <==> a == Command::Waste,
{
}

/// Law: a `Waste` frame is nothing but its length. It has `len` bytes; all are zero, the
/// command's and the stream id's too, but for the two that count the payload.
pub proof fn law_a_waste_frame_is_zeros(len: nat, i: int)
    requires
        HEADER_SIZE <= len <= HEADER_SIZE + 0xFFFF,
    ensures
        waste_frame(len).len() == len,
        0x100 * waste_frame(len)[5] + waste_frame(len)[6] == len - 7,
        0 <= i < len && i != 5 && i != 6 ==> waste_frame(len)[i] == 0,
        waste_frame(len).take(7) == waste_header_of(len).bytes(),
{
    assert(waste_frame(len).take(7) =~= waste_header_of(len).bytes());
}

} // verus!
