# rustybit

A BitTorrent client whose core is a library verified with Verus. The
functions in `src/` carry `requires`/`ensures` contracts that Verus proves;
the few calls into outside crates (hashing, bit vectors, URLs, paths,
randomness) go through small wrappers marked `#[verifier::external_body]`,
whose contracts are taken on trust and say what those calls are documented
to do. The `Storage` trait is implemented by the program, so what a storage
does is not proved. For a storage that keeps a record of the calls made on
it, the library states which reads and writes it makes, in order; every
piece check it records names the piece and the number of its bytes read.

## Layout

- `src/bencode` — the bencode value model, its grammar, encoder and decoder,
  with the law that decoding an encoding gives the value back.
- `src/protocol` — the peer wire protocol: handshake and messages as bytes,
  with their round-trip laws (a bitfield message round-trips where its bits
  are all the bits of its bytes).
- `src/parser.rs`, `src/torrent.rs` — metainfo files, piece hashes, the info
  hash and the tracker announce URL.
- `src/tracker.rs` — tracker request query strings and compact responses.
- `src/state` — the shared piece bookkeeping (which piece is queued, being
  downloaded by whom, downloaded or verified), piece selection and the
  torrent's decisions on peer and storage events.
- `src/peer.rs`, `src/buffer.rs` — the decisions of one peer connection and
  the buffers that frame its bytes.
- `src/storage` — where a torrent's bytes lie among its files, and checking
  pieces against their hashes.
- `src/dht` — KRPC messages and the `get_peers` lookup: nodes named in
  answers are queued once, no node is asked twice, and each peer's IP
  address is handed out once.
- `app/` — the command-line program: argument parsing, files, sockets, the
  async event loops and statistics. It hands events to the library and
  carries out the actions that the library returns.
- `tests/` — tests of the library on concrete values.
