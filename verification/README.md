# howm

The core of the Howm P2P node, written in Verus: the P2P-CD wire types and
their CBOR encoding, scope reconciliation, capability intersection, trust
gates, the session engine's decisions, capability routing, STUN parsing and
NAT classification, hole-punch planning, WireGuard dump parsing and address
allocation, and the daemon's configuration and profile rules.

Layout:

- `src/` — the verified library. Every public function states its result
  in `requires`/`ensures` over mathematical models; the laws that relate
  several functions (round trips of the codec, which rest on the trusted
  claim that `ciborium` reads back a plain item as it wrote it, both peers agreeing on the
  active set and on reconciled limits, glare resolution, read-after-write of
  the parameter map, reachability of the WireGuard monitor, ...) are public
  proof functions.
- `tests/` — tests of the library on concrete values.
- `app/` — the I/O around the library: the TOML configuration file, files
  under the data directory, STUN over UDP, the session transport over TCP,
  hole punching and the `wg`/`ip` command line.

Calls into outside crates (ciborium, sha2, base64, hex, x25519-dalek,
rand, dirs-next) sit behind small trusted wrappers whose contracts name
what the crate computes.
