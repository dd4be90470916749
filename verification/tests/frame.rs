//! Frame headers on the wire.

use downlink_padding::frame::{waste_header, Command, FrameHeader, HEADER_SIZE};

#[test]
fn a_header_is_command_stream_and_length() {
    let mut hdr = [0u8; HEADER_SIZE];
    FrameHeader { command: Command::Psh, stream_id: 0x0102_0304, length: 0xABCD }.encode(&mut hdr);
    assert_eq!(hdr, [2, 1, 2, 3, 4, 0xAB, 0xCD]);
}

#[test]
fn integers_are_in_network_byte_order() {
    for stream_id in [0u32, 1, 255, 256, 65_535, 65_536, 0xFFFF_FFFF] {
        for length in [0u16, 1, 255, 256, 0xFFFF] {
            let mut hdr = [0xEEu8; HEADER_SIZE];
            FrameHeader { command: Command::Fin, stream_id, length }.encode(&mut hdr);
            assert_eq!(hdr[0], Command::Fin.code());
            assert_eq!(hdr[1..5], stream_id.to_be_bytes());
            assert_eq!(hdr[5..7], length.to_be_bytes());
        }
    }
}

#[test]
fn commands_have_their_bytes() {
    let codes = [
        (Command::Waste, 0),
        (Command::Psh, 2),
        (Command::Fin, 3),
        (Command::UpdatePaddingScheme, 6),
        (Command::SynAck, 7),
        (Command::ServerSettings, 10),
    ];
    for (command, code) in codes {
        assert_eq!(command.code(), code);
    }
}

#[test]
fn a_waste_header_counts_itself() {
    assert_eq!(waste_header(7), [0; 7]);
    assert_eq!(waste_header(1393), [0, 0, 0, 0, 0, 5, 106]);
    assert_eq!(waste_header(HEADER_SIZE + 0xFFFF), [0, 0, 0, 0, 0, 255, 255]);
}
