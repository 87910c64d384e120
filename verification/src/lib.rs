//! Consistent hashing: a ring of nodes, each placed at the 64-bit hash of the
//! node, where a key is served by the first node at or after the key's hash.

pub mod hashing;
pub mod iter;
pub mod laws;
pub mod model;
mod node;
pub mod ring;

pub use hashing::DefaultHashBuilder;
pub use iter::HashRingIterator;
pub use ring::HashRing;
