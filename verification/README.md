# kevinbotlib_networking

A key/value server and client that speak a line protocol over TCP, packaged as a
Python extension module.

- `src/` is the verified library (Verus):
  - `text.rs`: Unicode white space, trimming, words, decimal digits and `u64` parsing;
  - `store.rs`: the server's store, a `dashmap::DashMap` seen as a map from keys to bytes;
  - `protocol.rs`: how a request line is read and what each request does to the store
    and answers (`SET`, `GET`, `DEL`, `GKC`, `GAK`, `QUIT`, `PING`);
  - `string_store.rs`: the simpler `SET`/`GET` form of the protocol;
  - `client.rs`: the client's request lines and the decoding of replies;
  - `lifecycle.rs`: the server's start and stop decisions, and `host:port`;
  - `laws.rs`: properties across operations, proved.
- `app/` holds the sockets, threads, runtimes, Python classes and logging.
- `tests/` runs the library on concrete lines.
