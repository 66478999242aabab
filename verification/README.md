# muxio

A multiplexed binary framing layer with a small RPC protocol on top,
written in Verus: every function of the library carries a contract, and the
properties the protocol promises are stated and proved as lemmas.

## Layout

- `src/` — the verified library.
  - `frame` — frames on the wire, their encoding, and a decoder that
    reassembles them from bytes cut anywhere.
  - `rpc_header` — the header that opens every RPC stream.
  - `stream_encoder`, `stream_decoder`, `session` — outgoing streams cut into
    frames, incoming frames reassembled per stream.
  - `ids` — the split of the id space between client and server.
  - `respondable`, `dispatcher` — routing of incoming events to the handlers
    of the calls they answer, and the queue of inbound requests.
  - `service`, `endpoint`, `caller`, `channel` — method ids, the serving and
    the calling side of prebuffered and streamed calls.
  - `testing` — small checks used by integration tests.
- `tests/` — integration tests.
- `app/` — the runtime around the library: handler closures, channels,
  async tasks, serialisation and the standard error traits.

The library never calls handlers itself: reading bytes returns the events
and the handler each is for, and `app/` runs the handlers.
