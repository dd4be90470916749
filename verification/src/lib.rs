//! Server-side downlink padding: how many plaintext bytes go into each downlink record.
//!
//! # Why this exists
//!
//! A proxied TLS connection carries a *second* TLS handshake inside the outer one. An
//! observer only sees the outer records, and their plaintext length sequence is what gives
//! the tunnel away: a handful of tiny records carries the per-connection control frames, and
//! the records that follow mirror the *inner* TLS records one for one.
//!
//! The protocol lets either side pad: any party that receives a `Waste` frame must read it
//! out completely and discard it silently. So a frame of padding on the downlink is legal for
//! every client that speaks version 2.
//!
//! # How the shaping works
//!
//! A flush of the buffered writer is what turns buffered plaintext into a TLS record: one
//! flush is one record, as long as the plaintext fits the buffer. Shaped records always do.
//! Shaping therefore means deciding how many plaintext bytes go into each flush:
//!
//! * **split**: a record larger than [`shaper::SPLIT_MAX`] is cut into several records of a
//!   randomised size inside `[SPLIT_MIN, SPLIT_MAX]`. This is nearly free, and it destroys
//!   the correlation between outer and inner record lengths.
//! * **fill**: the first record of a *burst* (the session head, and the head of each proxied
//!   connection's downlink, which starts at `SynAck`) is padded up into
//!   `[HEAD_MIN, HEAD_MAX]` with a `Waste` frame. This is the only place real bytes are
//!   spent.
//!
//! Everything else is left alone. In particular a *tail* record (the last partial record of
//! a data flush) is **not** padded: real TLS servers end a burst with whatever is left over.
//!
//! The target size is drawn per record, so that a session's record sizes have natural
//! variance, and the fill band is narrower and lower than the split band: a head is paid once
//! per proxied connection, so it only has to stop being tiny.
//!
//! # Compatibility
//!
//! Shaping is gated twice. The operator's flag decides whether the feature exists at all, and
//! [`shaper::DownlinkShaper::enable`] is only called once the peer has announced version 2.
//! Without both, the downlink is byte for byte what it would be without a shaper.
//!
//! # Layout
//!
//! * [`shaper`]: the shaper, and its abstract state
//! * [`write_state`]: writing and flushing, one step of I/O at a time
//! * [`stats`]: the counters
//! * [`rng`]: the generator that the sizes come from, and its seeds
//! * [`frame`]: frame headers, and byte streams read as frames
//! * [`cost`]: what records cost on the wire
//! * [`decisions`]: what the shaper's decisions amount to, one by one
//! * [`wire`]: the records on the wire and whole sessions, in the abstract
//! * [`effects`]: what single operations do to the shaper and to the wire
//! * [`laws`]: what holds of whole operations and sessions
//! * [`courses`]: what a session's records come to

pub mod cost;
pub mod courses;
pub mod decisions;
pub mod effects;
pub mod frame;
pub mod laws;
pub mod rng;
pub mod shaper;
pub mod stats;
pub mod wire;
pub mod write_state;
