# mumble_spaces

A verified library for a Mumble server whose users meet in *Spaces* that external
controllers describe.

A controller opens a session, registers participants, and says in which Space each
of them is to be. The server owns the registries (sessions, ownership, observed
Spaces, the credentials with which clients join), decides what every command does,
and answers each request once. A Space is rendered from the newest desired state.

- `src/` holds the library. `actor_model.rs` says what every command does to the
  server, `actor.rs` does it, `actor_laws.rs` says what holds of it in every state.
  The registries stand beside it (`session.rs`, `ownership.rs`, `reliable.rs`,
  `host.rs`, `spaces.rs`), the wire formats in `protobuf.rs`, `spaces_wire.rs`,
  `core_wire.rs`, `control.rs` and `framing.rs`, voice in `ocb2.rs` and `voice.rs`,
  the runtime around it in `queue.rs`, `runtime.rs`, `router.rs`, `snapshot.rs` and
  `space_logic.rs`, the server's certificate in `identity.rs`, and load campaigns in
  `campaign.rs`, `driver_wire.rs` and `ledger.rs`.
- `tests/` runs it.
- `app/` is the program around it: the gRPC service, the socket of the Mumble gateway,
  the metrics writer and the campaign coordinator.
