//! One entry of the ring: a node and the position it was hashed to.

use vstd::prelude::*;

verus! {

/// One entry of the ring: a node and the position it was hashed to.
#[derive(Clone, Debug)]
pub struct Node<T> {
    pub key: u64,
    pub node: T,
}

impl<T> Node<T> {
    pub(crate) fn new(key: u64, node: T) -> (n: Node<T>)
        ensures
            n.key == key,
            n.node == node,
    {
        Node { key, node }
    }
}

/// Entries are equal when they lie at the same position.
impl<T> PartialEq for Node<T> {
    fn eq(&self, other: &Node<T>) -> (r: bool) {
        self.key == other.key
    }
}

impl<T> Eq for Node<T> {
}

impl<T> vstd::std_specs::cmp::PartialEqSpecImpl for Node<T> {
    open spec fn obeys_eq_spec() -> bool {
        true
    }

    open spec fn eq_spec(&self, other: &Node<T>) -> bool {
        self.key == other.key
    }
}

} // verus!
