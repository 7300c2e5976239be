# eq_network

Verified wire codecs for EverQuest-compatible login, world, and zone servers,
written in Verus.

- `src/transport`: SOE reliable-UDP framing: opcodes, sequences, session
  responses, and combined packets.
- `src/login`: login application packets, the legacy DES-CBC credential block
  (through the `cbc` and `des` crates), login results, and server lists;
  decoded login requests keep their bytes and credentials in `zeroize` storage.
- `src/game`: dialect-specific outbound chat and typed game commands.
- `src/wire.rs`, `src/text.rs`: byte-order primitives and text decoding.
- `app/`: serde and `std::error::Error` copies of the public data types.

Every public function states its result exactly in its contract, and the
round-trip properties of the formats (combined packets, credential blocks,
login requests, login results, server lists) are stated and proved as
`law_*` proof functions.
