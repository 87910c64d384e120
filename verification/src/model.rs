//! The mathematical model of a ring: the sequence of its entries, each a pair
//! of a 64-bit position and a node, kept in ascending order of position.
//! Every operation of `HashRing` is stated over the functions of this module.

use vstd::prelude::*;

verus! {

/// Positions never decrease along the sequence.
pub open spec fn keys_sorted<T>(s: Seq<(u64, T)>) -> bool {
    forall|i: int, j: int| 0 <= i <= j < s.len() ==> s[i].0 <= s[j].0
}

/// Index of the first entry whose position is at least `bound`; the length of
/// the sequence when there is none.
pub open spec fn first_at_least<T>(s: Seq<(u64, T)>, bound: int) -> int
    decreases s.len(),
{
    if s.len() == 0 {
        0
    } else if s[0].0 >= bound {
        0
    } else {
        1 + first_at_least(s.drop_first(), bound)
    }
}

/// The index of the entry that serves `hash`: the first entry at or after
/// `hash`, wrapping round to the first entry when every entry lies before it.
pub open spec fn owner<T>(s: Seq<(u64, T)>, hash: u64) -> int {
    let i = first_at_least(s, hash as int);
    if i < s.len() {
        i
    } else {
        0
    }
}

/// The node that serves `hash`, or `None` for an empty ring.
pub open spec fn node_for<T>(s: Seq<(u64, T)>, hash: u64) -> Option<T> {
    if s.len() == 0 {
        None
    } else {
        Some(s[owner(s, hash)].1)
    }
}

/// The ring with `node` added at `hash`: after every entry whose position is
/// at most `hash`, before every entry whose position is greater.
pub open spec fn inserted<T>(s: Seq<(u64, T)>, hash: u64, node: T) -> Seq<(u64, T)> {
    s.insert(first_at_least(s, hash + 1), (hash, node))
}

/// The ring with each `(hashes[i], nodes[i])` added in turn, first to last.
pub open spec fn inserted_all<T>(s: Seq<(u64, T)>, hashes: Seq<u64>, nodes: Seq<T>) -> Seq<(u64, T)>
    recommends
        hashes.len() == nodes.len(),
    decreases hashes.len(),
{
    if hashes.len() == 0 {
        s
    } else {
        inserted(
            inserted_all(s, hashes.drop_last(), nodes.drop_last()),
            hashes.last(),
            nodes[hashes.len() - 1],
        )
    }
}

/// Whether some entry sits exactly at `hash`.
pub open spec fn holds_position<T>(s: Seq<(u64, T)>, hash: u64) -> bool {
    let i = first_at_least(s, hash as int);
    i < s.len() && s[i].0 == hash
}

/// The ring without its first entry at `hash`; unchanged when there is none.
pub open spec fn removed<T>(s: Seq<(u64, T)>, hash: u64) -> Seq<(u64, T)> {
    if holds_position(s, hash) {
        s.remove(first_at_least(s, hash as int))
    } else {
        s
    }
}

/// The node of the first entry at `hash`, or `None` when there is none.
pub open spec fn removed_node<T>(s: Seq<(u64, T)>, hash: u64) -> Option<T> {
    if holds_position(s, hash) {
        Some(s[first_at_least(s, hash as int)].1)
    } else {
        None
    }
}

/// How many nodes a request for `replicas` replicas returns from a ring of
/// `len` entries: the whole ring when `replicas` exceeds its length, else the
/// serving node and `replicas` more.
pub open spec fn replica_count(len: nat, replicas: nat) -> nat {
    if replicas > len {
        len
    } else {
        replicas + 1
    }
}

/// The nodes returned for `hash` and `replicas`: starting at the serving
/// entry, `replica_count` nodes going round the ring.
pub open spec fn replica_nodes<T>(s: Seq<(u64, T)>, hash: u64, replicas: nat) -> Seq<T>
    recommends
        s.len() > 0,
{
    Seq::new(replica_count(s.len(), replicas), |i: int| s[(owner(s, hash) + i) % (s.len() as int)].1)
}

/// `copies` holds, place by place, clones of the nodes of `originals`.
pub open spec fn clones_of<T: Clone>(copies: Seq<T>, originals: Seq<T>) -> bool {
    &&& copies.len() == originals.len()
    &&& forall|i: int| 0 <= i < copies.len() ==> cloned::<T>(originals[i], #[trigger] copies[i])
}

/// The nodes of the ring, in ring order.
pub open spec fn nodes_of<T>(s: Seq<(u64, T)>) -> Seq<T> {
    s.map_values(|e: (u64, T)| e.1)
}

/// `first_at_least` is the first index whose entry reaches `bound`: every
/// entry before it lies below `bound`.
pub proof fn lemma_first_at_least<T>(s: Seq<(u64, T)>, bound: int)
    ensures
        0 <= first_at_least(s, bound) <= s.len(),
        forall|j: int| 0 <= j < first_at_least(s, bound) ==> s[j].0 < bound,
        first_at_least(s, bound) < s.len() ==> s[first_at_least(s, bound)].0 >= bound,
    decreases s.len(),
{
    if s.len() > 0 && s[0].0 < bound {
        let t = s.drop_first();
        lemma_first_at_least(t, bound);
        assert forall|j: int| 0 <= j < first_at_least(s, bound) implies s[j].0 < bound by {
            if j > 0 {
                assert(s[j] == t[j - 1]);
            }
        }
    }
}

/// In a sorted sequence every entry from `first_at_least` on reaches `bound`.
pub proof fn lemma_first_at_least_sorted<T>(s: Seq<(u64, T)>, bound: int)
    requires
        keys_sorted(s),
    ensures
        forall|j: int| first_at_least(s, bound) <= j < s.len() ==> s[j].0 >= bound,
{
    lemma_first_at_least(s, bound);
}

/// Any index with the two properties of `first_at_least` is `first_at_least`.
pub proof fn lemma_first_at_least_unique<T>(s: Seq<(u64, T)>, bound: int, i: int)
    requires
        0 <= i <= s.len(),
        forall|j: int| 0 <= j < i ==> s[j].0 < bound,
        i < s.len() ==> s[i].0 >= bound,
    ensures
        i == first_at_least(s, bound),
{
    lemma_first_at_least(s, bound);
    let r = first_at_least(s, bound);
    if i < r {
        assert(s[i].0 < bound);
    } else if r < i {
        assert(s[r].0 < bound);
    }
}

/// Adding an entry at its place keeps a sequence sorted.
pub proof fn lemma_inserted_sorted<T>(s: Seq<(u64, T)>, hash: u64, node: T)
    requires
        keys_sorted(s),
    ensures
        keys_sorted(inserted(s, hash, node)),
        inserted(s, hash, node).len() == s.len() + 1,
{
    let p = first_at_least(s, hash + 1);
    lemma_first_at_least(s, hash + 1);
    lemma_first_at_least_sorted(s, hash + 1);
    let t = inserted(s, hash, node);
    assert forall|i: int, j: int| 0 <= i <= j < t.len() implies t[i].0 <= t[j].0 by {
        if i < p && j > p {
            assert(t[j] == s[j - 1]);
        }
    }
}

/// Taking an entry out keeps a sequence sorted.
pub proof fn lemma_removed_sorted<T>(s: Seq<(u64, T)>, hash: u64)
    requires
        keys_sorted(s),
    ensures
        keys_sorted(removed(s, hash)),
{
    if holds_position(s, hash) {
        let q = first_at_least(s, hash as int);
        lemma_first_at_least(s, hash as int);
        let t = removed(s, hash);
        assert forall|i: int, j: int| 0 <= i <= j < t.len() implies t[i].0 <= t[j].0 by {
            if i < q && j >= q {
                assert(t[j] == s[j + 1]);
            } else if i >= q {
                assert(t[i] == s[i + 1]);
                assert(t[j] == s[j + 1]);
            }
        }
    }
}

} // verus!
