# ant_node

The decisions of a storage node, verified with Verus: starting and running a
node, caching upgrade binaries, and replicating chunks.

- `src/` is the verified library. It takes what the network, the disk and the
  clock answered as plain values and decides what follows.
  - `node/` builds and runs a node: network settings, identity, order of phases.
  - `upgrade/` holds the binary cache and the upgrade monitor's settings.
  - `replication/` holds the replication engine: incoming messages, hint
    admission, verification, fetching, neighbor sync, audits and bootstrap.
  - `bytemap`, `ids`, `paths`, `text`, `seqs` are building blocks.
- `app/` runs the library: sockets, files, timers and signals.
- `tests/` runs the library on concrete values.

Contracts are stated over models (`EngineModel`, `QueuesModel`, `SyncModel`,
`BootstrapModel`, `NodeModel` and others) and the laws that span several
functions are public `lemma_` functions beside them.
