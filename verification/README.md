# lso_core

Direct peer-to-peer file transfer between two devices on different networks,
without accounts and without servers of the project. The bytes of a file
only ever travel over a direct connection between the two devices (made
through hole punching); when none can be made, the program says so and
explains why. Relays carry coordination messages only.

The library is written in Verus and proved correct against its contracts.

## Layout

- `src/` — the verified library:
  - `text`, `digest`: characters and strings; SHA-256 and BLAKE3 (outside
    crates behind trusted wrappers).
  - `addr`: peer ids and multiaddresses as the logic reads them.
  - `rendezvous`: short codes (`7F3K-9H2P`), the DHT keys derived from
    codes and peer ids, and the sharing session (a code is valid for five
    minutes and good for one transfer).
  - `json`: JSON values as `serde_json` reads them.
  - `ticket`: the `lso1…` ticket text: encoding, reading, destinations.
  - `direct_only`: which connections may carry the transfer protocol.
  - `names`, `protocol`, `sender`, `receiver`: the transfer protocol: safe
    file names, framing and checks, and the two sides as state machines
    (resume, hashing, verification).
  - `node`: the control plane's decisions: connection requests, relay
    reservations, DHT announcements, NAT diagnosis.
  - `identity`, `config`, `frontend`: test identities, static configuration,
    and what the front ends decide and say.
- `tests/` — tests of the library.
- `app/` — the `lso` command line program: the libp2p swarm, files, streams,
  terminal output; it carries out what the library decides.
