# zona-p2p

A decentralised overlay network of servers: XOR (Kademlia-like) greedy
routing, Ed25519 node identities (node id = SHA-256 of the public key),
eclipse-resistant routing tables with greedy, long-jump and diversity
slots, peer exchange, rate limits, a BFT light client, and HTTP
applications on top (an echo server, an HTTP proxy, a name service and a
curl-like client with a local gateway).

## Layout

- `src/` — the library, written in Verus: every function carries a
  contract. All of them are verified except the trusted wrappers around
  std and the outside crates (in `crypto`, `encoding`, `text`, `relay`,
  `fetch`, `proxy`, `serve` and `overlay/limits`), whose contracts are
  taken on trust from those crates' documentation and source.
  - `node_id`, `wire`, `types/` — identifiers, canonical encodings, records.
  - `crypto`, `signing`, `invite` — hashing, signatures, invitations.
  - `slots`, `overlay/` — the peer table and its invariants, XOR routing,
    critical-message forks and quorum, peer exchange, repair targets,
    recovery, rate limits, the descriptor store.
  - `bft/` — validator sets, certificates, epochs, the light client.
  - `node/`, `join` — a node: configuration, metrics, envelope handling,
    and how a starting node joins through its bootstrap peers.
  - `relay`, `server`, `api` — the HTTP relay's decisions, application
    handlers, the client packet API.
  - `proxy`, `dns`, `fetch`, `serve` — the proxy service, the name
    service, the fetch client and the local gateway.
  - `codec`, `gossip`, `client`, `sim` — stream framing, descriptor
    gossip, the interactive client's parsing, the simulated network.
  - `text`, `encoding` — text helpers and the trusted wrappers of std and
    outside-crate text functions.
- `app/` — the programs around the library: HTTP servers, TCP transport,
  command lines, terminal I/O, JSON and bincode forms of the records, and
  the floating-point parts (probe-loss estimates, the simulator's drop
  probability).
- `tests/` — tests of the library through its public interface.
