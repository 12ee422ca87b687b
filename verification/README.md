# rpxy_lib

TLS ClientHello fingerprints (JA3 and JA4) and synthetic HTTP responses for a
reverse proxy, verified with Verus.

- `src/wire.rs`, `src/client_hello.rs`, `src/extensions.rs`: reading a
  ClientHello out of the first bytes of a connection.
- `src/grease.rs`, `src/text.rs`, `src/fingerprint.rs`: the fingerprints.
- `src/encoding.rs`, `src/window.rs`, `src/fingerprint_laws.rs`,
  `src/hello_laws.rs`: what holds of them: reading gives back what was written,
  a visible prefix gives the extensions that are complete in it, GREASE and, for
  JA4, order do not count, nor do bytes after the record, unless they reach the
  end of a message that its first record cut inside an extension.
- `src/synthetic_response.rs`: error responses and redirections.
- `src/digest.rs`, `src/http_calls.rs`: calls into `md-5`, `sha2` and `http`.
- `app/`: the same in terms of `http` messages and `std` errors.
