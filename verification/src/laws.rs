//! What holds of the ring across operations: consistent hashing itself (an
//! added or removed node moves only the keys it takes or gave up), getting
//! back what was added, and how replica lists relate to the serving node.

use std::hash::BuildHasher;
use std::hash::Hash;

use vstd::prelude::*;

use crate::hashing::hashes_to;
use crate::hashing::hashes_uniquely;

use crate::model::first_at_least;
use crate::model::holds_position;
use crate::model::inserted;
use crate::model::inserted_all;
use crate::model::keys_sorted;
use crate::model::lemma_first_at_least;
use crate::model::lemma_first_at_least_sorted;
use crate::model::lemma_first_at_least_unique;
use crate::model::lemma_inserted_sorted;
use crate::model::node_for;
use crate::model::nodes_of;
use crate::model::owner;
use crate::model::removed;
use crate::model::removed_node;
use crate::model::replica_count;
use crate::model::replica_nodes;

verus! {

/// Adding a node to a ring changes the node serving a hash only to the node
/// added: every hash is served afterwards either by the node that served it
/// before or by the new node.
pub proof fn law_add_moves_hashes_only_to_new_node<T>(s: Seq<(u64, T)>, hash: u64, node: T, k: u64)
    requires
        keys_sorted(s),
    ensures
        node_for(inserted(s, hash, node), k) == node_for(s, k) || node_for(
            inserted(s, hash, node),
            k,
        ) == Some(node),
{
    let p = first_at_least(s, hash + 1);
    let t = inserted(s, hash, node);
    let i = first_at_least(s, k as int);
    lemma_first_at_least(s, hash + 1);
    lemma_first_at_least_sorted(s, hash + 1);
    lemma_first_at_least(s, k as int);
    lemma_first_at_least_sorted(s, k as int);
    lemma_inserted_sorted(s, hash, node);
    assert(t.len() == s.len() + 1);
    assert(forall|j: int| 0 <= j < p ==> t[j] == s[j]);
    assert(t[p] == (hash, node));
    assert(forall|j: int| p < j < t.len() ==> t[j] == s[j - 1]);
    if hash >= k {
        if p < i {
            assert(s[p].0 < k);
        }
        lemma_first_at_least_unique(t, k as int, i);
    } else {
        if i < p {
            assert(s[i].0 <= hash);
        }
        assert forall|j: int| 0 <= j < i + 1 implies t[j].0 < k by {
            if j > p {
                assert(t[j] == s[j - 1]);
            }
        }
        if i < s.len() {
            assert(t[i + 1] == s[i]);
        }
        lemma_first_at_least_unique(t, k as int, i + 1);
    }
}

/// Removing a node from a ring leaves every hash that the node did not serve
/// with the node that served it before.
pub proof fn law_remove_keeps_other_hashes<T>(s: Seq<(u64, T)>, hash: u64, k: u64)
    requires
        keys_sorted(s),
        !holds_position(s, hash) || owner(s, k) != first_at_least(s, hash as int),
    ensures
        node_for(removed(s, hash), k) == node_for(s, k),
{
    if holds_position(s, hash) {
        let q = first_at_least(s, hash as int);
        lemma_first_at_least(s, hash as int);
        let t = s.remove(q);
        let i = first_at_least(s, k as int);
        lemma_first_at_least(s, k as int);
        lemma_first_at_least_sorted(s, k as int);
        assert(forall|j: int| 0 <= j < q ==> t[j] == s[j]);
        assert(forall|j: int| q <= j < t.len() ==> t[j] == s[j + 1]);
        if i < q {
            lemma_first_at_least_unique(t, k as int, i);
        } else {
            assert(i > q);
            assert forall|j: int| 0 <= j < i - 1 implies t[j].0 < k by {
                if j >= q {
                    assert(t[j] == s[j + 1]);
                }
            }
            if i < s.len() {
                assert(t[i - 1] == s[i]);
            }
            lemma_first_at_least_unique(t, k as int, i - 1);
            if i == s.len() {
                assert(q != 0);
                assert(t[0] == s[0]);
            }
        }
    }
}

/// A node added at a free position serves that position, and removing at
/// that position takes it out again and gives back the ring as it was.
pub proof fn law_add_then_remove<T>(s: Seq<(u64, T)>, hash: u64, node: T)
    requires
        keys_sorted(s),
        !holds_position(s, hash),
    ensures
        node_for(inserted(s, hash, node), hash) == Some(node),
        removed_node(inserted(s, hash, node), hash) == Some(node),
        removed(inserted(s, hash, node), hash) == s,
{
    let i = first_at_least(s, hash as int);
    let p = first_at_least(s, hash + 1);
    let t = inserted(s, hash, node);
    lemma_first_at_least(s, hash as int);
    lemma_first_at_least_sorted(s, hash as int);
    lemma_first_at_least(s, hash + 1);
    lemma_first_at_least_unique(s, hash + 1, i);
    assert(p == i);
    assert(t[p] == (hash, node));
    assert(forall|j: int| 0 <= j < p ==> t[j] == s[j]);
    lemma_first_at_least_unique(t, hash as int, p);
    assert(t.remove(p) =~= s);
}

/// The list of replicas for a hash begins with the node that serves it.
pub proof fn law_replicas_begin_with_serving_node<T>(s: Seq<(u64, T)>, k: u64, replicas: nat)
    requires
        s.len() > 0,
    ensures
        replica_nodes(s, k, replicas).len() > 0,
        Some(replica_nodes(s, k, replicas)[0]) == node_for(s, k),
        Some(replica_nodes(s, k, 0)[0]) == node_for(s, k),
        replica_nodes(s, k, 0).len() == 1,
{
    lemma_first_at_least(s, k as int);
    vstd::arithmetic::div_mod::lemma_small_mod(owner(s, k) as nat, s.len());
}

/// Replica lists for one hash agree where they overlap: the shorter is the
/// start of the longer. Up to the length of the ring, each replica more asked
/// for gives one node more.
pub proof fn law_replica_lists_share_prefix<T>(s: Seq<(u64, T)>, k: u64, fewer: nat, more: nat)
    requires
        s.len() > 0,
    ensures
        replica_nodes(s, k, fewer).len() <= replica_nodes(s, k, more).len() ==> replica_nodes(
            s,
            k,
            fewer,
        ) == replica_nodes(s, k, more).take(replica_nodes(s, k, fewer).len() as int),
        fewer <= more <= s.len() ==> replica_nodes(s, k, more).len() - replica_nodes(
            s,
            k,
            fewer,
        ).len() == more - fewer,
{
    let a = replica_nodes(s, k, fewer);
    let b = replica_nodes(s, k, more);
    if a.len() <= b.len() {
        assert(a =~= b.take(a.len() as int));
    }
}

/// A node added twice at a free position is there twice: removing at that
/// position once takes out one copy and leaves the ring with the other.
pub proof fn law_remove_takes_one_of_two_copies<T>(s: Seq<(u64, T)>, hash: u64, node: T)
    requires
        keys_sorted(s),
        !holds_position(s, hash),
    ensures
        removed_node(inserted(inserted(s, hash, node), hash, node), hash) == Some(node),
        removed(inserted(inserted(s, hash, node), hash, node), hash) == inserted(s, hash, node),
{
    let i = first_at_least(s, hash as int);
    let p = first_at_least(s, hash + 1);
    let once = inserted(s, hash, node);
    let twice = inserted(once, hash, node);
    lemma_first_at_least(s, hash as int);
    lemma_first_at_least_sorted(s, hash as int);
    lemma_first_at_least(s, hash + 1);
    lemma_first_at_least_unique(s, hash + 1, i);
    assert(p == i);
    assert(once.len() == s.len() + 1);
    assert(forall|j: int| 0 <= j < p ==> once[j] == s[j]);
    assert(once[p] == (hash, node));
    assert(forall|j: int| p < j < once.len() ==> once[j] == s[j - 1]);
    assert forall|j: int| 0 <= j < p + 1 implies once[j].0 < hash + 1 by {
        if j < p {
            assert(once[j] == s[j]);
        }
    }
    if p + 1 < once.len() {
        assert(once[p + 1] == s[p]);
    }
    lemma_first_at_least_unique(once, hash + 1, p + 1);
    assert(forall|j: int| 0 <= j < p ==> twice[j] == s[j]);
    assert(twice[p] == (hash, node));
    lemma_first_at_least_unique(twice, hash as int, p);
    assert(twice.remove(p) =~= once);
}


/// Asking for more replicas than the ring has nodes gives every node of the
/// ring once.
pub proof fn law_many_replicas_cover_ring<T>(s: Seq<(u64, T)>, k: u64, replicas: nat)
    requires
        s.len() > 0,
        replicas > s.len(),
    ensures
        replica_count(s.len(), replicas) == s.len(),
        replica_nodes(s, k, replicas).to_multiset() == nodes_of(s).to_multiset(),
{
    let n = nodes_of(s);
    let o = owner(s, k);
    let len = s.len() as int;
    lemma_first_at_least(s, k as int);
    let r = replica_nodes(s, k, replicas);
    assert forall|i: int| 0 <= i < len implies #[trigger] r[i] == (n.skip(o) + n.take(o))[i] by {
        if i < len - o {
            vstd::arithmetic::div_mod::lemma_small_mod((o + i) as nat, len as nat);
        } else {
            vstd::arithmetic::div_mod::lemma_fundamental_div_mod_converse(o + i, len, 1, o + i - len);
        }
    }
    assert(r =~= n.skip(o) + n.take(o));
    vstd::seq_lib::lemma_seq_union_to_multiset_commutative(n.skip(o), n.take(o));
    assert(n.take(o) + n.skip(o) =~= n);
}

/// Adding a node adds exactly its entry and keeps every other entry.
pub proof fn law_add_keeps_every_entry<T>(s: Seq<(u64, T)>, hash: u64, node: T)
    ensures
        inserted(s, hash, node).len() == s.len() + 1,
        inserted(s, hash, node).to_multiset() == s.to_multiset().insert((hash, node)),
{
    lemma_first_at_least(s, hash + 1);
    vstd::seq_lib::to_multiset_insert(s, first_at_least(s, hash + 1), (hash, node));
}

/// Adding nodes one after another adds exactly their entries and keeps every
/// entry that was there.
pub proof fn law_batch_add_keeps_every_entry<T>(s: Seq<(u64, T)>, hashes: Seq<u64>, nodes: Seq<T>)
    requires
        hashes.len() == nodes.len(),
    ensures
        inserted_all(s, hashes, nodes).len() == s.len() + nodes.len(),
        inserted_all(s, hashes, nodes).to_multiset() == s.to_multiset().add(
            Seq::new(nodes.len(), |i: int| (hashes[i], nodes[i])).to_multiset(),
        ),
    decreases hashes.len(),
{
    let added = Seq::new(nodes.len(), |i: int| (hashes[i], nodes[i]));
    if hashes.len() == 0 {
        added.to_multiset_ensures();
        vstd::multiset::lemma_multiset_empty_len(added.to_multiset());
        assert(s.to_multiset().add(added.to_multiset()) =~= s.to_multiset());
    } else {
        let hs = hashes.drop_last();
        let ns = nodes.drop_last();
        law_batch_add_keeps_every_entry(s, hs, ns);
        let before = inserted_all(s, hs, ns);
        let last = (hashes.last(), nodes[hashes.len() - 1]);
        law_add_keeps_every_entry(before, hashes.last(), nodes[hashes.len() - 1]);
        let fewer = Seq::new(ns.len(), |i: int| (hs[i], ns[i]));
        assert(added =~= fewer.push(last));
        fewer.to_multiset_ensures();
        assert(s.to_multiset().add(added.to_multiset()) =~= s.to_multiset().add(
            fewer.to_multiset(),
        ).insert(last));
    }
}

/// Removing at a position where an entry sits takes out exactly that entry
/// and keeps every other.
pub proof fn law_remove_takes_one_entry<T>(s: Seq<(u64, T)>, hash: u64)
    requires
        holds_position(s, hash),
    ensures
        removed(s, hash).len() == s.len() - 1,
        removed_node(s, hash) matches Some(node) && removed(s, hash).to_multiset()
            == s.to_multiset().remove((hash, node)),
{
    let q = first_at_least(s, hash as int);
    lemma_first_at_least(s, hash as int);
    s.to_multiset_ensures();
    assert(s[q] == (hash, s[q].1));
}

/// The node serving a hash is that of the first entry at or after the hash;
/// only when every entry lies before the hash does the ring wrap round to its
/// first entry. In particular a hash at or before the first entry is served
/// by the first entry.
pub proof fn law_served_node_is_first_at_or_after<T>(s: Seq<(u64, T)>, h: u64)
    requires
        keys_sorted(s),
        s.len() > 0,
    ensures
        0 <= owner(s, h) < s.len(),
        node_for(s, h) == Some(s[owner(s, h)].1),
        ({
            ||| (h <= s[owner(s, h)].0 && forall|j: int| 0 <= j < owner(s, h) ==> s[j].0 < h)
            ||| (owner(s, h) == 0 && forall|j: int| 0 <= j < s.len() ==> s[j].0 < h)
        }),
        h <= s[0].0 ==> owner(s, h) == 0,
        h <= s[s.len() - 1].0 ==> s[owner(s, h)].0 >= h,
{
    lemma_first_at_least(s, h as int);
}

/// Removing at a position where no entry sits gives `None` and leaves the
/// ring as it was, whatever its length; removing where an entry sits gives
/// the node of an entry at that position and takes out one entry.
pub proof fn law_remove_finds_only_entries_at_the_position<T>(s: Seq<(u64, T)>, h: u64)
    requires
        keys_sorted(s),
    ensures
        (forall|j: int| 0 <= j < s.len() ==> s[j].0 != h) ==> removed_node(s, h) is None
            && removed(s, h) == s,
        (exists|j: int| 0 <= j < s.len() && s[j].0 == h) ==> (removed_node(s, h) matches Some(x)
            && s.contains((h, x)) && removed(s, h).len() == s.len() - 1),
{
    let i = first_at_least(s, h as int);
    lemma_first_at_least(s, h as int);
    lemma_first_at_least_sorted(s, h as int);
    if exists|j: int| 0 <= j < s.len() && s[j].0 == h {
        let j = choose|j: int| 0 <= j < s.len() && s[j].0 == h;
        assert(i <= j);
        assert(s[i].0 <= s[j].0);
        assert(holds_position(s, h));
        assert(s[i] == (h, s[i].1));
        assert(s.contains((h, s[i].1)));
    }
}

/// A node added at a position is in the ring afterwards, and a lookup at that
/// position is served by an entry sitting exactly there.
pub proof fn law_added_node_sits_at_its_position<T>(s: Seq<(u64, T)>, h: u64, node: T)
    requires
        keys_sorted(s),
    ensures
        inserted(s, h, node).contains((h, node)),
        holds_position(inserted(s, h, node), h),
        inserted(s, h, node)[owner(inserted(s, h, node), h)].0 == h,
{
    let t = inserted(s, h, node);
    let p = first_at_least(s, h + 1);
    lemma_first_at_least(s, h + 1);
    lemma_inserted_sorted(s, h, node);
    assert(t[p] == (h, node));
    let i = first_at_least(t, h as int);
    lemma_first_at_least(t, h as int);
    assert(i <= p);
    assert(t[i].0 <= t[p].0);
}

/// Adding nodes in a batch puts each one in the ring at the position given
/// for it, and keeps every entry that was there.
pub proof fn law_batch_add_places_each_node<T>(s: Seq<(u64, T)>, hashes: Seq<u64>, nodes: Seq<T>)
    requires
        hashes.len() == nodes.len(),
    ensures
        forall|i: int|
            0 <= i < nodes.len() ==> #[trigger] inserted_all(s, hashes, nodes).contains(
                (hashes[i], nodes[i]),
            ),
        forall|j: int| 0 <= j < s.len() ==> inserted_all(s, hashes, nodes).contains(#[trigger] s[j]),
{
    let t = inserted_all(s, hashes, nodes);
    let added = Seq::new(nodes.len(), |i: int| (hashes[i], nodes[i]));
    law_batch_add_keeps_every_entry(s, hashes, nodes);
    t.to_multiset_ensures();
    s.to_multiset_ensures();
    added.to_multiset_ensures();
    broadcast use vstd::multiset::group_multiset_axioms;
    assert forall|i: int| 0 <= i < nodes.len() implies #[trigger] t.contains((hashes[i], nodes[i])) by {
        let e = (hashes[i], nodes[i]);
        assert(added[i] == e);
        assert(added.contains(e));
        assert(added.to_multiset().count(e) > 0);
        assert(t.to_multiset().count(e) == s.to_multiset().count(e) + added.to_multiset().count(e));
        assert(t.to_multiset().count(e) > 0);
    }
    assert forall|j: int| 0 <= j < s.len() implies t.contains(#[trigger] s[j]) by {
        let e = s[j];
        assert(s.contains(e));
        assert(s.to_multiset().count(e) > 0);
        assert(t.to_multiset().count(e) == s.to_multiset().count(e) + added.to_multiset().count(e));
        assert(t.to_multiset().count(e) > 0);
    }
}

/// Where the hash builder gives a node one position, a node added at the
/// position its hash gives, where no entry sat, is what a lookup of that same
/// node returns afterwards, and removing it gives it back and restores the
/// ring: `add` and `get`/`remove` hash alike.
pub proof fn law_lookup_finds_added_node<S: BuildHasher, T: Hash>(
    builder: S,
    s: Seq<(u64, T)>,
    node: T,
    added_at: u64,
    looked_up_at: u64,
)
    requires
        keys_sorted(s),
        hashes_uniquely(&builder, &node),
        hashes_to(&builder, &node, added_at),
        hashes_to(&builder, &node, looked_up_at),
        !holds_position(s, added_at),
    ensures
        node_for(inserted(s, added_at, node), looked_up_at) == Some(node),
        removed_node(inserted(s, added_at, node), looked_up_at) == Some(node),
        removed(inserted(s, added_at, node), looked_up_at) == s,
{
    assert(added_at == looked_up_at);
    law_add_then_remove(s, added_at, node);
}

} // verus!
