# consensus_simulation

A small simulation of pipelined HotStuff consensus among a few nodes.

- `src/` is the verified library. `node.rs` holds `NodeState`, a pure state
  machine from messages to commands, whose contract is the transition relation
  in `model.rs`. `safety.rs` states and proves the protocol's properties over
  that relation: no double vote (over any interleaving of messages and
  proposals), votes only for proposals that extend the lock, each node counts
  once in a tally, certificates carry votes from a quorum of distinct nodes,
  commits need such a certificate, a late vote forms no second certificate, a
  leader commits once a quorum of nodes votes, the lock is the highest
  certificate seen, quorum arithmetic.
  `types.rs` holds the messages and the block hash (SHA-256 through `sha2`).
- `app/` runs the simulation on tokio: one task per node, channels between them.
- `tests/` exercises the library.
