# kvstore

A small key-value and publish/subscribe service over TCP, with its logic
verified by Verus.

- `src/common.rs`: the frame format (`Get key`, `Set key value`, `Pub key value`,
  `Sub key`): parsing without copying, writing, and the law that a frame reads
  back from its own text.
- `src/text.rs`: facts about the UTF-8 bytes of text, used where frames are cut
  by byte position.
- `src/storage.rs`: the key-value store and its lookups.
- `src/server.rs`: what the server answers to each frame, and the channels that
  subscriptions open.
- `src/client.rs`, `src/mode.rs`: the client's states and the choice of mode.
- `src/sync/`: the protocol of the reader-writer lock and the count of the
  reference-counted pointer. The laws about them are proved on a model of the
  protocol, in which the effect of each atomic operation on the shared words
  (`apply_op`, and the count steps of `arc_after`) is assumed, not proved of
  the atomics: a writer excludes every other holder under any interleaving of
  those operations in one global order (the operations are sequentially
  consistent, which gives that order), a thread alone with a free lock takes
  it, and the count equals the live handles.
- `app/`: the program: sockets, standard input, tasks, and the lock and pointer
  types themselves, which spin, hold raw pointers and implement `Drop`.
- `tests/`: tests of the library.
