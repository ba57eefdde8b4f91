# utils

The verified core of a small web service (login with JWTs, user roles, an
LRU-K cache, request-size admission), written in Verus.

- `src/` is the library. Its functions are verified against their
  contracts, except the small wrappers around calls into `jsonwebtoken`,
  `lettre` and the system clock (`external_body`), whose contracts are
  trusted. The modules:
  - `lru_k`: an arena-backed doubly linked list and the LRU-K cache, with an
    abstract model in `lru_k/model.rs` and the laws proved over it;
  - `response`: status codes and response envelopes;
  - `extract`: reading the `Content-Length` and `Transfer-Encoding` headers
    and the body-size admission decision;
  - `jwt`: expiry stamping, keys, signing and verifying through
    `jsonwebtoken`;
  - `extension`: the refresh-token cache and its sweep;
  - `email`: building the mail message and the retry decision;
  - `global`, `rc`, `tracing`, and `apps` (the decisions of the user, system
    and test routes).
- `app/` is the HTTP server around it: axum routes, the database, Redis,
  MongoDB and SMTP clients, JSON wire types and the shared global state.
- `tests/` exercises the library on concrete values.
