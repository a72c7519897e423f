# Distributed cache

An in-memory cache server that speaks RESP2, the protocol of Redis clients, with
persistence, replication and cluster routing. The logic is a library verified
with Verus; the network and the disk are in a thin program around it.

## Layout

- `src/` is the verified library.
  - `resp/`: values of the protocol, their encoding, the streaming parser, and how
    values are shown in messages.
  - `cmd/`: how requests are understood as commands, and what commands do.
  - `store/`: the key-value store with expiry, snapshots and eviction. It keeps
    its entries in a `DashMap`.
  - `persistence/`: snapshots and the log of commands that change data.
  - `replication/`: what a master sends and what a replica makes of it.
  - `cluster/`: consistent hashing on SHA-256, and routing.
  - `connection/`: what a node does about each request.
  - `benchmark/`: the logic of the load generator.
  - `text.rs`, `random.rs`: helpers.
- `app/` is the program: sockets, files, timers and measurements.
- `tests/` runs the library on concrete values.

In each directory of `src/`, `model.rs` holds the mathematical model that
contracts speak of, and `laws.rs` what holds of several operations together, as
proof functions.

## Time

The store counts time in nanoseconds since it was made. Operations that depend on
the time come in two forms: one is told the time (`..._at`), and its contract is
exact; the other reads the clock, and its contract says that some time makes it
true.

## What is trusted

Calls into `std`, `dashmap`, `rand` and `sha2` stand behind small functions marked
`external_body`, whose contracts are not proved: `text.rs` (decoding of UTF-8,
upper and lower case, quoting), `store/dash.rs` (the map), `store/clock.rs` (the
clock), `random.rs` (the random generator) and `cluster/hashring.rs` (SHA-256).

## Running

Without arguments the program serves on `127.0.0.1:8080`:

    redis-cli -p 8080 PING

`CACHE_ROLE` (`master` or `replica`) and `CACHE_MASTER` switch replication on.
With `benchmark` as its first argument the program generates load; see
`benchmark --help`.
