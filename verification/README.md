# peasub

A metadata-private gossip layer whose logic is verified with Verus, on top of
trusted contracts for the crates that it calls.

Every node of the network sends frames of one size on a schedule that does not
depend on what it has to say. On every tick it takes the next frame (a message
of the application, else a frame of another peer that is to be sent on, else
freshly made cover) and sends it to `fanout` distinct peers. A frame starts with
a random 32-byte identifier. A node that receives a frame drops it if the
identifier is among those that it has seen lately, and otherwise delivers it and
queues it for sending on.

## Layout

- `src/` is the library. All of its logic is verified; calls into other crates
  stand behind small functions whose contracts are trusted (see below).
  - `node.rs`: publishing, and what becomes of a frame that comes in.
  - `lanes.rs`: the frames that wait to be sent.
  - `gossip.rs`: the memory of identifiers; it forgets the least recently seen.
  - `cover.rs`, `selection.rs`: what a tick sends, and to whom.
  - `codec.rs`: frames on the wire.
  - `config.rs`, `error.rs`, `addr.rs`, `buffer.rs`, `text.rs`: plain values.
- `app/` is the running part: sockets, timers, background tasks and the impls of
  traits of other crates.
- `tests/` runs the library together with the crates that it stands on.

## What is proved

- Frames survive the wire: what was encoded is decoded, all of it and in order, and
  however a stream is cut up, the same frames come out and then the same error or
  none (`codec.rs`).
- A node remembers exactly the identifiers that it saw most recently (`gossip.rs`).
  Until more of them come in than it remembers, it hands on exactly the first frame
  under each identifier, in order, once each (`node.rs`).
- A tick names exactly as many distinct peers as it should, those first that the
  previous tick left out (`selection.rs`, `cover.rs`).
- A tick draws exactly one waiting frame and sends cover only if none came; a tick
  without peers draws none (`node.rs`, `cover.rs`).
- A published payload is handed over once, as it is. It is refused as too large
  exactly when it does not fit beside the identifier, and what is refused is not
  queued (`node.rs`).

What was done to the lanes is stated over logs that the three ends of the lanes
keep. The ends are made with the node and in no other way, so no call of the
library goes unlogged. Code that works on the underlying `peashape::Node` directly
is outside of what is stated.

The proofs rest on short contracts for calls into other crates (`bytes`, `lru`,
`peashape`, `rand`, `tokio-util`) and into the standard library. Each such
contract stands with the function that makes the call, under a comment that says
what is trusted.
