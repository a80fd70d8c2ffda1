# pq_tunnel_core

The core of a post-quantum tunnel, written in Verus: fixed-size packets, a
mutually authenticated handshake with hybrid key establishment, an AEAD envelope
with replay protection, session management, budgets per source, and cover
traffic.

- `src/` is the library. It computes and decides, and every function of it is
  proved against its contract. It performs no input or output and reads no
  clock; ML-KEM, ML-DSA, the AEAD and the derivation of traffic keys are asked
  for by requests that fix every input, and each step is resumed with the answer.
  The functions of other crates that it calls (SHA-256, HKDF, X25519,
  constant-time comparison, random numbers, erasure) stand in `src/crypto.rs`
  and `src/bytes.rs`, each with a statement of what is assumed of it.
- `tests/` runs the library, with hash-based stand-ins for the work that is
  left to the caller.
- `app/` holds the transports and drivers around the library: UDP and QUIC, the
  tokio event loops, the timers, the texts of errors, and the backend over
  `pq_crypto`.

Public proof functions state what holds of the library as a whole, such as
`no_counter_accepted_twice`, `sealed_packet_opens`, `both_sides_agree`,
`pending_is_bounded` and `forged_packet_changes_no_session`.
