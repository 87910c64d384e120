//! The hash ring: nodes placed at the hash of each node, kept in ascending
//! order of position, and the lookups that find the node serving a key.

use std::fmt::Debug;
use std::hash::BuildHasher;
use std::hash::Hash;

use vstd::prelude::*;

use crate::hashing::get_key;
use crate::hashing::hashes_to;
use crate::hashing::DefaultHashBuilder;
use crate::iter::HashRingIterator;
use crate::node::Node;
use crate::model::clones_of;
use crate::model::first_at_least;
use crate::model::holds_position;
use crate::model::inserted;
use crate::model::inserted_all;
use crate::model::keys_sorted;
use crate::model::lemma_first_at_least;
use crate::model::lemma_first_at_least_unique;
use crate::model::lemma_inserted_sorted;
use crate::model::lemma_removed_sorted;
use crate::model::node_for;
use crate::model::nodes_of;
use crate::model::owner;
use crate::model::removed;
use crate::model::removed_node;
use crate::model::replica_count;
use crate::model::replica_nodes;

verus! {

/// A hash ring that provides consistent hashing for the nodes added to it.
/// Two rings are equal when their hash builders are equal and their entries
/// lie at the same positions in the same order.
#[derive(Debug, PartialEq)]
pub struct HashRing<T, S = DefaultHashBuilder> {
    hash_builder: S,
    ring: Vec<Node<T>>,
}

impl<T, S> View for HashRing<T, S> {
    type V = Seq<(u64, T)>;

    /// The entries of the ring in order: each node with its position.
    closed spec fn view(&self) -> Seq<(u64, T)> {
        self.ring@.map_values(|n: Node<T>| (n.key, n.node))
    }
}

impl<T: Clone, S: Clone> Clone for HashRing<T, S> {
    /// A copy of the ring: the same positions in the same order, each node
    /// and the hash builder cloned.
    fn clone(&self) -> (copy: Self)
        ensures
            copy@.len() == self@.len(),
            forall|i: int|
                0 <= i < self@.len() ==> #[trigger] copy@[i].0 == self@[i].0 && cloned::<T>(
                    self@[i].1,
                    copy@[i].1,
                ),
            self.wf() ==> copy.wf(),
            cloned::<S>(self.builder(), copy.builder()),
    {
        let mut ring: Vec<Node<T>> = Vec::new();
        let mut i: usize = 0;
        while i < self.ring.len()
            invariant
                i <= self.ring@.len(),
                ring@.len() == i,
                forall|j: int|
                    0 <= j < i ==> #[trigger] ring@[j].key == self.ring@[j].key && cloned::<T>(
                        self.ring@[j].node,
                        ring@[j].node,
                    ),
            decreases self.ring@.len() - i,
        {
            let n = Node::new(self.ring[i].key, self.ring[i].node.clone());
            ring.push(n);
            i = i + 1;
        }
        let copy = HashRing { hash_builder: self.hash_builder.clone(), ring };
        assert forall|i: int| 0 <= i < self@.len() implies #[trigger] copy@[i].0 == self@[i].0 && cloned::<T>(
            self@[i].1,
            copy@[i].1,
        ) by {
            assert(copy@[i] == (copy.ring@[i].key, copy.ring@[i].node));
            assert(self@[i] == (self.ring@[i].key, self.ring@[i].node));
        }
        copy
    }
}

impl<T> Default for HashRing<T> {
    fn default() -> (ring: Self)
        ensures
            ring@ == Seq::<(u64, T)>::empty(),
    {
        let ring = HashRing { hash_builder: DefaultHashBuilder, ring: Vec::new() };
        assert(ring@ =~= Seq::<(u64, T)>::empty());
        ring
    }
}

impl<T> HashRing<T> {
    /// Creates a new, empty `HashRing` with the default hash builder.
    pub fn new() -> (ring: HashRing<T>)
        ensures
            ring.wf(),
            ring@ == Seq::<(u64, T)>::empty(),
    {
        Self::default()
    }
}

/// Index of the first entry whose position is at least `key`, or, when
/// `strict`, greater than `key`; the length of the ring when there is none.
fn search<T>(ring: &Vec<Node<T>>, key: u64, strict: bool) -> (i: usize)
    requires
        keys_sorted(ring@.map_values(|n: Node<T>| (n.key, n.node))),
    ensures
        i == first_at_least(
            ring@.map_values(|n: Node<T>| (n.key, n.node)),
            if strict { key + 1 } else { key as int },
        ),
{
    let ghost s = ring@.map_values(|n: Node<T>| (n.key, n.node));
    let ghost bound: int = if strict { key + 1 } else { key as int };
    let mut lo: usize = 0;
    let mut hi: usize = ring.len();
    while lo < hi
        invariant
            0 <= lo <= hi <= ring@.len(),
            s.len() == ring@.len(),
            s == ring@.map_values(|n: Node<T>| (n.key, n.node)),
            bound == if strict { key + 1 } else { key as int },
            keys_sorted(s),
            forall|j: int| 0 <= j < lo ==> s[j].0 < bound,
            forall|j: int| hi <= j < s.len() ==> s[j].0 >= bound,
        decreases hi - lo,
    {
        let mid = lo + (hi - lo) / 2;
        let k = ring[mid].key;
        assert(s[mid as int].0 == k);
        let below = if strict { k <= key } else { k < key };
        if below {
            lo = mid + 1;
        } else {
            hi = mid;
        }
    }
    proof {
        lemma_first_at_least_unique(s, bound, lo as int);
    }
    lo
}

/// Going one step round a ring of `m` places.
proof fn lemma_mod_next(a: int, m: int)
    requires
        0 <= a,
        0 < m,
    ensures
        (a + 1) % m == if a % m + 1 == m {
            0
        } else {
            a % m + 1
        },
{
    vstd::arithmetic::div_mod::lemma_fundamental_div_mod(a, m);
    let q = a / m;
    let r = a % m;
    assert(m * q == q * m) by (nonlinear_arith);
    if r + 1 == m {
        assert((q + 1) * m == q * m + m) by (nonlinear_arith);
        vstd::arithmetic::div_mod::lemma_fundamental_div_mod_converse(a + 1, m, q + 1, 0);
    } else {
        vstd::arithmetic::div_mod::lemma_fundamental_div_mod_converse(a + 1, m, q, r + 1);
    }
}

impl<T, S> HashRing<T, S> {
    /// The ring is well formed: positions ascend along it.
    pub open spec fn wf(&self) -> bool {
        keys_sorted(self@)
    }

    /// The hash builder the ring was made with.
    pub closed spec fn builder(&self) -> S {
        self.hash_builder
    }

    /// Creates an empty `HashRing` which will use the given hash builder.
    pub fn with_hasher(hash_builder: S) -> (ring: HashRing<T, S>)
        ensures
            ring.wf(),
            ring@ == Seq::<(u64, T)>::empty(),
            ring.builder() == hash_builder,
    {
        let ring = HashRing { hash_builder, ring: Vec::new() };
        assert(ring@ =~= Seq::<(u64, T)>::empty());
        ring
    }

    /// Get the number of nodes in the hash ring.
    pub fn len(&self) -> (n: usize)
        ensures
            n == self@.len(),
    {
        self.ring.len()
    }

    /// Returns true if the ring has no elements.
    pub fn is_empty(&self) -> (b: bool)
        ensures
            b == (self@.len() == 0),
    {
        self.ring.len() == 0
    }

    /// Adds `node` at position `hash`: after every entry at a position up to
    /// `hash`, before every entry at a greater one.
    pub fn add_hashed(&mut self, hash: u64, node: T)
        requires
            old(self).wf(),
        ensures
            final(self).wf(),
            final(self)@ == inserted(old(self)@, hash, node),
            final(self)@.len() == old(self)@.len() + 1,
            final(self).builder() == old(self).builder(),
    {
        let pos = search(&self.ring, hash, true);
        let ghost s = self@;
        proof {
            lemma_first_at_least(s, hash + 1);
            lemma_inserted_sorted(s, hash, node);
        }
        self.ring.insert(pos, Node::new(hash, node));
        assert(self@ =~= inserted(s, hash, node));
    }

    /// Removes the first entry at position `hash` and returns its node, or
    /// returns `None` and leaves the ring as it was when no entry is there.
    pub fn remove_hashed(&mut self, hash: u64) -> (r: Option<T>)
        requires
            old(self).wf(),
        ensures
            final(self).wf(),
            final(self)@ == removed(old(self)@, hash),
            r == removed_node(old(self)@, hash),
            r is Some <==> holds_position(old(self)@, hash),
            r is Some ==> final(self)@.len() == old(self)@.len() - 1,
            final(self).builder() == old(self).builder(),
    {
        let ghost s = self@;
        proof {
            lemma_first_at_least(s, hash as int);
            lemma_removed_sorted(s, hash);
        }
        let pos = search(&self.ring, hash, false);
        if pos < self.ring.len() && self.ring[pos].key == hash {
            let n = self.ring.remove(pos);
            assert(self@ =~= s.remove(pos as int));
            Some(n.node)
        } else {
            None
        }
    }

    /// The node serving position `hash`: that of the first entry at or after
    /// `hash`, or of the first entry of the ring when every entry lies
    /// before `hash`; `None` when the ring is empty.
    pub fn get_hashed(&self, hash: u64) -> (r: Option<&T>)
        requires
            self.wf(),
        ensures
            r is Some <==> self@.len() > 0,
            r matches Some(n) ==> *n == self@[owner(self@, hash)].1,
    {
        if self.ring.len() == 0 {
            return None;
        }
        let n = search(&self.ring, hash, false);
        proof {
            lemma_first_at_least(self@, hash as int);
        }
        if n == self.ring.len() {
            return Some(&self.ring[0].node);
        }
        Some(&self.ring[n].node)
    }

    /// The node serving position `hash` and the `replicas` nodes after it,
    /// going round the ring; the whole ring, from the serving node on, when
    /// `replicas` exceeds the length of the ring. `None` when the ring is
    /// empty. Each node is a clone of the ring's.
    pub fn get_with_replicas_hashed(&self, hash: u64, replicas: usize) -> (r: Option<Vec<T>>)
        where
            T: Clone,
        requires
            self.wf(),
        ensures
            r is Some <==> self@.len() > 0,
            r matches Some(v) ==> clones_of(v@, replica_nodes(self@, hash, replicas as nat)),
            r matches Some(v) ==> v@.len() > 0 && cloned::<T>(
                node_for(self@, hash).unwrap(),
                v@[0],
            ),
    {
        let len = self.ring.len();
        if len == 0 {
            return None;
        }
        // Index of the last node to hand out: one less than the number of nodes.
        let last = if replicas > len {
            len - 1
        } else {
            replicas
        };
        let n = search(&self.ring, hash, false);
        proof {
            lemma_first_at_least(self@, hash as int);
        }
        let start = if n == len {
            0
        } else {
            n
        };
        let ghost want = replica_nodes(self@, hash, replicas as nat);
        let mut nodes: Vec<T> = Vec::new();
        let mut idx = start;
        proof {
            vstd::arithmetic::div_mod::lemma_small_mod(start as nat, len as nat);
        }
        let mut i: usize = 0;
        loop
            invariant_except_break
                nodes@.len() == i,
                forall|j: int| 0 <= j < i ==> cloned::<T>(#[trigger] want[j], nodes@[j]),
            invariant
                len == self@.len(),
                len > 0,
                start == owner(self@, hash),
                last + 1 == replica_count(len as nat, replicas as nat),
                want == replica_nodes(self@, hash, replicas as nat),
                want.len() == last + 1,
                0 <= i <= last,
                idx < len,
                idx as int == (start + i) % (len as int),
            ensures
                nodes@.len() == want.len(),
                forall|j: int| 0 <= j < want.len() ==> cloned::<T>(#[trigger] want[j], nodes@[j]),
            decreases last - i,
        {
            assert(self@[idx as int].1 == self.ring@[idx as int].node);
            let c = self.ring[idx].node.clone();
            assert(want[i as int] == self@[idx as int].1);
            nodes.push(c);
            if i == last {
                break;
            }
            proof {
                lemma_mod_next(start + i, len as int);
            }
            idx = if idx + 1 == len {
                0
            } else {
                idx + 1
            };
            i = i + 1;
        }
        assert(want[0] == node_for(self@, hash).unwrap());
        Some(nodes)
    }
}

impl<T, S> HashRing<T, S> {
    /// Consumes the ring and returns an iterator over its nodes in ring order.
    pub fn into_iter(self) -> (it: HashRingIterator<T>)
        ensures
            it@ == nodes_of(self@),
    {
        let ghost all = nodes_of(self@);
        let mut entries = self.ring;
        let mut rest: Vec<T> = Vec::new();
        while entries.len() > 0
            invariant
                all == entries@.map_values(|n: Node<T>| n.node) + rest@.reverse(),
            decreases entries@.len(),
        {
            let ghost before = entries@;
            let n = entries.pop().unwrap();
            proof {
                assert(before =~= entries@.push(n));
                assert(before.map_values(|n: Node<T>| n.node) =~= entries@.map_values(|n: Node<T>| n.node).push(n.node));
                assert(rest@.push(n.node).reverse() =~= seq![n.node] + rest@.reverse());
            }
            rest.push(n.node);
        }
        assert(all =~= rest@.reverse());
        HashRingIterator::from_back(rest)
    }
}

impl<T: Hash, S: BuildHasher> HashRing<T, S> {
    /// Add `node` to the hash ring, at the position its hash gives it.
    pub fn add(&mut self, node: T)
        requires
            old(self).wf(),
        ensures
            final(self).wf(),
            exists|hash: u64|
                hashes_to(&old(self).builder(), &node, hash) && final(self)@ == inserted(
                    old(self)@,
                    hash,
                    node,
                ),
            final(self)@.len() == old(self)@.len() + 1,
            final(self).builder() == old(self).builder(),
    {
        let key = get_key(&self.hash_builder, &node);
        self.add_hashed(key, node);
    }

    /// Add each of `nodes` to the hash ring, in turn, at the position its hash
    /// gives it.
    pub fn batch_add(&mut self, nodes: Vec<T>)
        requires
            old(self).wf(),
        ensures
            final(self).wf(),
            exists|hashes: Seq<u64>|
                {
                    &&& hashes.len() == nodes@.len()
                    &&& forall|i: int|
                        0 <= i < hashes.len() ==> hashes_to(
                            &old(self).builder(),
                            &nodes@[i],
                            #[trigger] hashes[i],
                        )
                    &&& final(self)@ == inserted_all(old(self)@, hashes, nodes@)
                },
            final(self)@.len() == old(self)@.len() + nodes@.len(),
            final(self).builder() == old(self).builder(),
    {
        let ghost start = self@;
        let ghost all = nodes@;
        let mut nodes = nodes;
        let mut backwards: Vec<T> = Vec::new();
        while nodes.len() > 0
            invariant
                all == nodes@ + backwards@.reverse(),
            decreases nodes@.len(),
        {
            let n = nodes.pop().unwrap();
            proof {
                assert(all =~= nodes@ + backwards@.push(n).reverse());
            }
            backwards.push(n);
        }
        assert(backwards@.reverse() =~= all);
        let ghost mut hashes: Seq<u64> = Seq::empty();
        let ghost mut done: int = 0;
        while backwards.len() > 0
            invariant
                self.wf(),
                self.builder() == old(self).builder(),
                start == old(self)@,
                0 <= done <= all.len(),
                backwards@.len() == all.len() - done,
                forall|j: int| 0 <= j < backwards@.len() ==> #[trigger] backwards@[j] == all[all.len() - 1 - j],
                hashes.len() == done,
                forall|i: int| 0 <= i < done ==> hashes_to(&old(self).builder(), &all[i], #[trigger] hashes[i]),
                self@.len() == start.len() + done,
                self@ == inserted_all(start, hashes, all.take(done)),
            decreases backwards@.len(),
        {
            let n = backwards.pop().unwrap();
            assert(n == all[done]);
            let key = get_key(&self.hash_builder, &n);
            self.add_hashed(key, n);
            proof {
                let h2 = hashes.push(key);
                assert(h2.drop_last() =~= hashes);
                assert(all.take(done + 1).drop_last() =~= all.take(done));
                hashes = h2;
                done = done + 1;
            }
        }
        assert(all.take(done) =~= all);
        assert(forall|i: int| 0 <= i < hashes.len() ==> hashes_to(&old(self).builder(), &all[i], #[trigger] hashes[i]));
    }

    /// Remove `node` from the hash ring: the first entry at the position its
    /// hash gives. Returns that entry's node, or `None` if no entry is there.
    pub fn remove(&mut self, node: &T) -> (r: Option<T>)
        requires
            old(self).wf(),
        ensures
            final(self).wf(),
            exists|hash: u64|
                {
                    &&& hashes_to(&old(self).builder(), node, hash)
                    &&& final(self)@ == removed(old(self)@, hash)
                    &&& r == removed_node(old(self)@, hash)
                },
            final(self).builder() == old(self).builder(),
    {
        let key = get_key(&self.hash_builder, node);
        self.remove_hashed(key)
    }

    /// Get the node responsible for `key`. Returns an `Option` that will
    /// contain the node if the hash ring is not empty or `None` if it was
    /// empty.
    pub fn get<U: Hash>(&self, key: &U) -> (r: Option<&T>)
        requires
            self.wf(),
        ensures
            r is Some <==> self@.len() > 0,
            r matches Some(n) ==> exists|hash: u64| *n == self@[owner(self@, hash)].1,
            r matches Some(n) ==> exists|hash: u64|
                hashes_to(&self.builder(), key, hash) && *n == self@[owner(self@, hash)].1,
    {
        if self.ring.len() == 0 {
            return None;
        }
        let k = get_key(&self.hash_builder, key);
        let r = self.get_hashed(k);
        assert(r matches Some(n) ==> hashes_to(&self.builder(), key, k) && *n == self@[owner(
            self@,
            k,
        )].1);
        r
    }

    /// Get the node responsible for `key` along with the next `replicas` nodes
    /// after. Returns `None` when the ring is empty. If `replicas` is larger
    /// than the length of the ring, the result shrinks to the entire ring.
    pub fn get_with_replicas<U: Hash>(&self, key: &U, replicas: usize) -> (r: Option<Vec<T>>)
        where
            T: Clone + Debug,
        requires
            self.wf(),
        ensures
            r is Some <==> self@.len() > 0,
            r matches Some(v) ==> exists|hash: u64|
                clones_of(v@, #[trigger] replica_nodes(self@, hash, replicas as nat)),
            r matches Some(v) ==> exists|hash: u64|
                hashes_to(&self.builder(), key, hash) && clones_of(
                    v@,
                    #[trigger] replica_nodes(self@, hash, replicas as nat),
                ),
    {
        if self.ring.len() == 0 {
            return None;
        }
        let k = get_key(&self.hash_builder, key);
        let r = self.get_with_replicas_hashed(k, replicas);
        assert(r matches Some(v) ==> clones_of(v@, replica_nodes(self@, k, replicas as nat)));
        r
    }
}

} // verus!
