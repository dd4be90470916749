# downlink_padding

Shapes the sizes of a tunnel server's downlink TLS records: large records are split at
randomised sizes, and the first record of a burst is filled up with a frame of padding. The
library is written in Verus; its contracts and the laws in `src/laws.rs` are proved.

- `src/`: the library. It decides; it does no I/O.
- `app/`: the write half over an asynchronous writer, which carries out the decisions, and a
  program that measures what shaping costs on the wire.
- `tests/`: tests of the library, over a real buffered writer where records matter.

One thing in the library is not proved but trusted: the single reading of the clock, in
`src/rng.rs`, that the seeds of a process start from. Nothing is claimed of what it gives.

The laws speak of the records that leave a buffered writer, modelled as `Wire` in
`src/wire.rs`: what does not fit behind the bytes that wait sends those first, and a write as
large as the buffer bypasses it. The connection behind it is taken to accept whole what it is
handed.
