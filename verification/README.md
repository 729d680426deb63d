# murmur-core

Murmur is a serverless social discussion protocol: every device holds its own
Ed25519 identity, signs its posts as events, keeps them in a local store and
exchanges them with peers found on the local network.

This crate is the protocol's logic, written in Verus and proved against its
contracts:

- `event` — the event envelope, its canonical JSON form and id, the builder
  that signs events, and validation.
- `identity` — keys, the passphrase-protected stored form of an identity, and
  the proof-of-work check.
- `storage` — the event store: own and cached events, and the ordered,
  filtered queries the clients show (timeline, posts, replies, threads).
- `network` — the wire messages, the node's decisions on each swarm event or
  command, and how incoming events are taken in.
- `temperature` — the integer part of the replication rule.
- `client` — what the terminal and desktop clients decide and show: key
  handling, commands, posting and replying, and the texts on screen.
- `crypto`, `json`, `clock` — the calls into sha2, ed25519-dalek, serde_json
  and chrono, with the contracts the rest of the crate relies on.

`app/` is the terminal program around the library: the terminal (ratatui and
crossterm), the SQLite file, the identity file, the libp2p swarm, and the
floating-point temperature score.

There is no desktop program here. What the desktop front end shows and
decides (its post and profile records, feeds, threads, avatar colours and
peer counts) is in `client::desktop`; the Tauri window and its command
plumbing around it are not part of this project.
