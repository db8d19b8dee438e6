# flipple-multiplayer-relay

A QUIC relay that routes authenticated raw IPv4/UDP datagrams between the
Android devices of one Flipple virtual network, with its protocol logic
verified in Verus.

## Layout

- `src/` — the verified library.
  - `wire.rs`: the 10-byte big-endian data-frame codec, with decode/encode
    round-trip laws.
  - `auth.rs`: ticket framing, header and Ed25519 signature checks, claim
    validation, virtual-address ↔ peer-id mapping, and the single-use ticket
    id record, with the laws that a refused replay leaves the record as it
    was and that an accepted id is refused until it expires, whatever other
    ids are consumed meanwhile.
  - `relay.rs`: IPv4/UDP packet checks, the per-datagram routing verdict and
    the choice of destination connection. Laws: a forwarded packet carries
    the sender's own virtual address as source; a packet claiming another
    address of 100.64.0.0/10 is dropped, and only a source outside that range
    is rewritten; a datagram reaches at most one connection, in the sender's
    own network.
  - `checksum.rs`: the RFC 1071 Internet checksum and the IPv4/UDP checksum
    refresh, with laws that a checksum written into its field verifies.
  - `registry.rs`: which connection serves each peer of each network.
  - `tls.rs`: certificates and private key read from PEM text.
  - `client.rs`: client-side argument checks and outbound framing.
  - `ipv4.rs`, `text.rs`: dotted-quad parsing, byte splitting, string equality,
    small numbers in decimal and hexadecimal.
  - `primitives.rs`: the calls into `base64`, `ed25519-dalek`,
    `rustls-pemfile` and the clock.
- `app/` — the executable: command line, reading the TLS files, QUIC endpoints, the
  async relay and client loops, and JSON (serde) decoding.
- `tests/` — tests of the library.
