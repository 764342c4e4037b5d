# chat_module

The core of a Logos chat module, verified with Verus: the conversation
history it keeps and what each operation does to it, the delivery state it
reports and the events it raises, the bounded event queue, the bootstrap of
delivery_module's node, the error codes of its C surface, the names, rotation
and pruning of its log files, and the rules of the HTTP mailbox relay and of
the transport that talks to it.

## Layout

- `src/` — the verified library. Each public function states in its contract
  what it returns or changes; the laws that relate several of them are public
  proof functions (`lemma_*`).
  - `chats.rs` — conversations, messages, tombstones, and the operations on them
  - `events.rs` — the events and the bounded queue that holds them
  - `delivery.rs`, `bootstrap.rs` — delivery state, connectivity, topics, and
    the createNode / getNodeInfo / start steps
  - `display.rs`, `errors.rs` — status, install-once, failure codes
  - `logging.rs` — filter selection, line heads, crash lines, run-file names,
    rotation budget, pruning
  - `relay.rs`, `mailbox.rs` — the relay's configuration, auth and request
    rules; the transport's endpoints, cursors, poller and sender steps
  - `codec.rs`, `utf8.rs`, `text.rs` — base64 through the `base64` crate,
    UTF-8 through std, and the string helpers the rest is written with
- `tests/` — tests of the library on concrete values.
- `app/` — the process side: the C entry points, threads and locks, the chat
  client and delivery_module calls, the SQLite stores, the log files and panic
  hook, the relay's HTTP server and the transport's HTTP client.

Verify with `verus` on `src/lib.rs`; the tests run with `cargo test`.
