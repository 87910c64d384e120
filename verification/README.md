# hashring

A minimal consistent-hashing ring. `HashRing` places each node at the 64-bit
hash of the node (SipHash-2-4 with zero keys by default, or any `BuildHasher`
given to `with_hasher`) and serves a key with the first node at or after the
key's hash, wrapping round to the first node.

The library is verified with Verus:

- `src/model.rs` models a ring as the sequence of its `(position, node)`
  entries in ascending order of position, and defines adding, removing,
  looking up and replica lists over that sequence.
- `src/ring.rs` holds `HashRing`; every method states its effect over the
  model. The `*_hashed` methods take the hash as an argument and are exact;
  `add`, `remove`, `get` and `get_with_replicas` hash their argument first.
- `src/node.rs` holds one entry of the ring; entries are equal when their
  positions are.
- `src/iter.rs` hands the nodes of a consumed ring out in ring order.
- `src/hashing.rs` holds the default hash builder and the calls into the
  hashing traits and the `siphasher` crate.
- `src/laws.rs` proves what holds across operations: adding a node moves
  hashes only to that node, removing a node keeps every other node's hashes,
  adding then removing restores the ring, a node added twice is removed one
  copy at a time, and replica lists start at the serving node, agree where
  they overlap, and cover the whole ring when more replicas are asked for
  than there are nodes.
