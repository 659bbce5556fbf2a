# aura-core

The core of Aura, a multi-protocol download engine (HTTP, FTP, BitTorrent),
written in Verus: every function of the library carries a contract that
Verus proves.

## Layout

- `src/` — the verified library.
  - `bitfield`, `protocol`, `piece_picker`, `peer_registry`, `peer_session`,
    `bt_task`: the BitTorrent wire format, piece availability, rarest-first
    selection and the decisions of a peer connection.
  - `torrent`, `bencode`, `hash`: metainfo files, v1 and v2 piece hashes and
    info hashes.
  - `tracker`, `dht`: tracker replies, UDP tracker packets and their retry
    steps, the Kademlia routing table and KRPC decisions.
  - `task`, `orchestrator`, `storage`: range planning of a download, the
    orchestrator's handlers, and the ordering of writes to disk.
  - `worker`, `links`, `magnet`, `metalink`: the HTTP redirect and landing-page
    state machine, FTP endpoints, magnet links and Metalink documents.
  - `rpc`, `api`, `config`, `power`, `vpn`, `throttler`, `port_mapping`,
    `text`: the JSON-RPC methods, task events, settings and small helpers.
- `tests/` — tests of the library on concrete values.
- `app/` — the `aura` program around the library: the tokio actors, the
  network and disk I/O, the JSON-RPC daemon (axum), the terminal dashboard
  (ratatui) and the command line (clap).

The public proof functions named `law_*` state the properties that hold
across calls (round trips of the wire formats, what a saved task restores,
bounds on redirects, and so on).
