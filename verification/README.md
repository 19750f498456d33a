# clipboard_sync

Peer-to-peer clipboard synchronisation between equal peers on a LAN.

- `src/` is the verified library:
  - `protocol`: wire types, event creation and validation (size, origin, BLAKE3
    digest, UTF-8 text, PNG signature) and the frame checks of decoding;
  - `sync_engine` and `seen`: the Lamport clock, the latest event and the
    bounded window of event ids that suppresses duplicates;
  - `session`: the decisions of a connection (handshake, answers to messages,
    forwarding), the peer registry and discovery framing;
  - `clipboard` and `png`: clipboard items, fingerprints, the watcher's
    polling and loop-suppression decisions, PNG encoding of pictures;
  - `decimal`, `digest`, `error`: small helpers.
- `app/` is the program around it: command line, WebSocket and UDP I/O, the
  clipboard backend and worker thread, and the bincode encoding of frames.
