use std::hash::{BuildHasher, BuildHasherDefault, Hash, Hasher};

use hashring::{DefaultHashBuilder, HashRing};
use siphasher::sip::SipHasher;

/// An IPv4 socket address: four octets and a port. It is hashed as the
/// standard library hashes a `SocketAddr` holding an IPv4 address: the
/// variant's discriminant, the port, then the four octets as an array.
#[derive(Debug, Copy, Clone, PartialEq)]
struct SocketAddr {
    octets: [u8; 4],
    port: u16,
}

impl Hash for SocketAddr {
    fn hash<H: Hasher>(&self, state: &mut H) {
        state.write_isize(0);
        self.port.hash(state);
        self.octets.hash(state);
    }
}

impl SocketAddr {
    fn new(ip: &str, port: u16) -> Self {
        let parts: Vec<u8> = ip.split('.').map(|p| p.parse().unwrap()).collect();
        assert_eq!(parts.len(), 4);
        SocketAddr {
            octets: [parts[0], parts[1], parts[2], parts[3]],
            port,
        }
    }
}

#[derive(Debug, Copy, Clone, Hash, PartialEq)]
struct VNode {
    id: usize,
    addr: SocketAddr,
}

impl VNode {
    fn new(ip: &str, port: u16, id: usize) -> Self {
        let addr = SocketAddr::new(ip, port);
        VNode { id, addr }
    }
}

fn sip_of<U: Hash>(value: &U) -> u64 {
    let mut hasher = SipHasher::new_with_keys(0, 0);
    value.hash(&mut hasher);
    hasher.finish()
}

#[test]
fn add_and_remove_nodes() {
    let mut ring: HashRing<VNode> = HashRing::new();

    assert_eq!(ring.len(), 0);
    assert!(ring.is_empty());

    let vnode1 = VNode::new("127.0.0.1", 1024, 1);
    let vnode2 = VNode::new("127.0.0.1", 1024, 2);
    let vnode3 = VNode::new("127.0.0.2", 1024, 1);

    ring.add(vnode1);
    ring.add(vnode2);
    ring.add(vnode3);
    assert_eq!(ring.len(), 3);
    assert!(!ring.is_empty());

    assert_eq!(ring.remove(&vnode2).unwrap(), vnode2);
    assert_eq!(ring.len(), 2);

    let vnode4 = VNode::new("127.0.0.2", 1024, 2);
    let vnode5 = VNode::new("127.0.0.2", 1024, 3);
    let vnode6 = VNode::new("127.0.0.3", 1024, 1);

    ring.batch_add(vec![vnode4, vnode5, vnode6]);

    assert_eq!(ring.remove(&vnode1).unwrap(), vnode1);
    assert_eq!(ring.remove(&vnode3).unwrap(), vnode3);
    assert_eq!(ring.remove(&vnode6).unwrap(), vnode6);
    assert_eq!(ring.len(), 2);
}

#[test]
fn get_nodes() {
    let mut ring: HashRing<VNode> = HashRing::new();

    assert_eq!(ring.get(&"foo"), None);

    let vnode1 = VNode::new("127.0.0.1", 1024, 1);
    let vnode2 = VNode::new("127.0.0.1", 1024, 2);
    let vnode3 = VNode::new("127.0.0.2", 1024, 1);
    let vnode4 = VNode::new("127.0.0.2", 1024, 2);
    let vnode5 = VNode::new("127.0.0.2", 1024, 3);
    let vnode6 = VNode::new("127.0.0.3", 1024, 1);

    ring.add(vnode1);
    ring.add(vnode2);
    ring.add(vnode3);
    ring.add(vnode4);
    ring.add(vnode5);
    ring.add(vnode6);

    assert_eq!(ring.get(&"foo"), Some(&vnode5));
    assert_eq!(ring.get(&"bar"), Some(&vnode3));
    assert_eq!(ring.get(&"baz"), Some(&vnode5));

    assert_eq!(ring.get(&"abc"), Some(&vnode2));
    assert_eq!(ring.get(&"def"), Some(&vnode2));
    assert_eq!(ring.get(&"ghi"), Some(&vnode6));

    assert_eq!(ring.get(&"cat"), Some(&vnode1));
    assert_eq!(ring.get(&"dog"), Some(&vnode5));
    assert_eq!(ring.get(&"bird"), Some(&vnode5));

    // at least each node as a key
    let mut nodes = vec![0; 6];
    for x in 0..50_000 {
        let node = ring.get(&x).unwrap();
        if vnode1 == *node {
            nodes[0] += 1;
        }
        if vnode2 == *node {
            nodes[1] += 1;
        }
        if vnode3 == *node {
            nodes[2] += 1;
        }
        if vnode4 == *node {
            nodes[3] += 1;
        }
        if vnode5 == *node {
            nodes[4] += 1;
        }
        if vnode6 == *node {
            nodes[5] += 1;
        }
    }
    println!("{:?}", nodes);
    assert!(nodes.iter().all(|x| *x != 0));
}

#[test]
fn get_nodes_with_replicas() {
    let mut ring: HashRing<VNode> = HashRing::new();

    assert_eq!(ring.get(&"foo"), None);
    assert_eq!(ring.get_with_replicas(&"foo", 1), None);

    let vnode1 = VNode::new("127.0.0.1", 1024, 1);
    let vnode2 = VNode::new("127.0.0.1", 1024, 2);
    let vnode3 = VNode::new("127.0.0.2", 1024, 3);
    let vnode4 = VNode::new("127.0.0.2", 1024, 4);
    let vnode5 = VNode::new("127.0.0.2", 1024, 5);
    let vnode6 = VNode::new("127.0.0.3", 1024, 6);

    ring.add(vnode1);
    ring.add(vnode2);
    ring.add(vnode3);
    ring.add(vnode4);
    ring.add(vnode5);
    ring.add(vnode6);

    assert_eq!(
        ring.get_with_replicas(&"bar", 2).unwrap(),
        vec![vnode6, vnode5, vnode2]
    );

    assert_eq!(
        ring.get_with_replicas(&"foo", 4).unwrap(),
        vec![vnode3, vnode1, vnode6, vnode5, vnode2]
    );
}

#[test]
fn get_with_replicas_returns_too_many_replicas() {
    let mut ring: HashRing<VNode> = HashRing::new();

    assert_eq!(ring.get(&"foo"), None);
    assert_eq!(ring.get_with_replicas(&"foo", 1), None);

    let vnode1 = VNode::new("127.0.0.1", 1024, 1);
    let vnode2 = VNode::new("127.0.0.1", 1024, 2);
    let vnode3 = VNode::new("127.0.0.2", 1024, 3);
    let vnode4 = VNode::new("127.0.0.2", 1024, 4);
    let vnode5 = VNode::new("127.0.0.2", 1024, 5);
    let vnode6 = VNode::new("127.0.0.3", 1024, 6);

    ring.add(vnode1);
    ring.add(vnode2);
    ring.add(vnode3);
    ring.add(vnode4);
    ring.add(vnode5);
    ring.add(vnode6);

    assert_eq!(
        ring.get_with_replicas(&"bar", 20).unwrap(),
        vec![vnode6, vnode5, vnode2, vnode4, vnode3, vnode1],
        "too high of replicas causes the count to shrink to ring length"
    );
}

#[test]
fn into_iter() {
    let mut ring: HashRing<VNode> = HashRing::new();

    assert_eq!(ring.get(&"foo"), None);

    let vnode1 = VNode::new("127.0.0.1", 1024, 1);
    let vnode2 = VNode::new("127.0.0.1", 1024, 2);
    let vnode3 = VNode::new("127.0.0.2", 1024, 1);

    ring.add(vnode1);
    ring.add(vnode2);
    ring.add(vnode3);

    let mut iter = ring.into_iter();

    assert_eq!(Some(vnode1), iter.next());
    assert_eq!(Some(vnode3), iter.next());
    assert_eq!(Some(vnode2), iter.next());
    assert_eq!(None, iter.next());
}

fn small_ring() -> HashRing<char> {
    let mut ring: HashRing<char> = HashRing::new();
    ring.add_hashed(20, 'b');
    ring.add_hashed(10, 'a');
    ring.add_hashed(30, 'c');
    ring
}

#[test]
fn get_hashed_serves_first_entry_at_or_after() {
    let ring = small_ring();
    assert_eq!(ring.get_hashed(0), Some(&'a'));
    assert_eq!(ring.get_hashed(10), Some(&'a'));
    assert_eq!(ring.get_hashed(11), Some(&'b'));
    assert_eq!(ring.get_hashed(20), Some(&'b'));
    assert_eq!(ring.get_hashed(29), Some(&'c'));
    assert_eq!(ring.get_hashed(30), Some(&'c'));
    assert_eq!(ring.get_hashed(31), Some(&'a'));
    assert_eq!(ring.get_hashed(u64::MAX), Some(&'a'));
}

#[test]
fn get_hashed_on_empty_ring() {
    let ring: HashRing<char> = HashRing::new();
    assert_eq!(ring.get_hashed(0), None);
    assert_eq!(ring.get_hashed(u64::MAX), None);
    assert_eq!(ring.get_with_replicas_hashed(7, 3), None);
}

#[test]
fn add_hashed_keeps_ring_order() {
    let ring = small_ring();
    let mut it = ring.into_iter();
    assert_eq!(it.next(), Some('a'));
    assert_eq!(it.next(), Some('b'));
    assert_eq!(it.next(), Some('c'));
    assert_eq!(it.next(), None);
    assert_eq!(it.next(), None);
}

#[test]
fn equal_positions_keep_the_order_of_adding() {
    let mut ring: HashRing<u32> = HashRing::new();
    ring.add_hashed(10, 1);
    ring.add_hashed(5, 0);
    ring.add_hashed(10, 2);
    ring.add_hashed(10, 3);
    assert_eq!(ring.get_hashed(10), Some(&1));
    assert_eq!(ring.get_hashed(6), Some(&1));
    assert_eq!(ring.remove_hashed(10), Some(1));
    assert_eq!(ring.get_hashed(10), Some(&2));
    let mut it = ring.into_iter();
    assert_eq!(it.next(), Some(0));
    assert_eq!(it.next(), Some(2));
    assert_eq!(it.next(), Some(3));
    assert_eq!(it.next(), None);
}

#[test]
fn remove_hashed_at_free_position_changes_nothing() {
    let mut ring = small_ring();
    assert_eq!(ring.remove_hashed(15), None);
    assert_eq!(ring.remove_hashed(u64::MAX), None);
    assert_eq!(ring.len(), 3);
    assert_eq!(ring.remove_hashed(20), Some('b'));
    assert_eq!(ring.len(), 2);
    assert_eq!(ring.get_hashed(15), Some(&'c'));
    assert_eq!(ring.remove_hashed(20), None);
}

#[test]
fn replicas_go_round_the_ring() {
    let ring = small_ring();
    assert_eq!(ring.get_with_replicas_hashed(15, 0), Some(vec!['b']));
    assert_eq!(ring.get_with_replicas_hashed(15, 1), Some(vec!['b', 'c']));
    assert_eq!(ring.get_with_replicas_hashed(25, 2), Some(vec!['c', 'a', 'b']));
    assert_eq!(ring.get_with_replicas_hashed(40, 1), Some(vec!['a', 'b']));
}

#[test]
fn replicas_equal_to_length_wrap_once_more() {
    let ring = small_ring();
    assert_eq!(
        ring.get_with_replicas_hashed(25, 3),
        Some(vec!['c', 'a', 'b', 'c'])
    );
}

#[test]
fn replicas_beyond_length_give_the_whole_ring() {
    let ring = small_ring();
    assert_eq!(
        ring.get_with_replicas_hashed(25, 4),
        Some(vec!['c', 'a', 'b'])
    );
    assert_eq!(
        ring.get_with_replicas_hashed(5, 100),
        Some(vec!['a', 'b', 'c'])
    );
}

#[test]
fn adding_moves_hashes_only_to_the_new_node() {
    let mut ring = small_ring();
    let probes: Vec<u64> = (0..50u64).collect();
    let before: Vec<char> = probes.iter().map(|h| *ring.get_hashed(*h).unwrap()).collect();
    ring.add_hashed(25, 'x');
    for (h, old) in probes.iter().zip(before.iter()) {
        let now = *ring.get_hashed(*h).unwrap();
        assert!(now == *old || now == 'x');
    }
    assert_eq!(ring.get_hashed(25), Some(&'x'));
    assert_eq!(ring.get_hashed(21), Some(&'x'));
    assert_eq!(ring.get_hashed(26), Some(&'c'));
}

#[test]
fn removing_keeps_hashes_of_other_nodes() {
    let mut ring = small_ring();
    let probes: Vec<u64> = (0..50u64).collect();
    let before: Vec<char> = probes.iter().map(|h| *ring.get_hashed(*h).unwrap()).collect();
    assert_eq!(ring.remove_hashed(30), Some('c'));
    for (h, old) in probes.iter().zip(before.iter()) {
        let now = *ring.get_hashed(*h).unwrap();
        if *old != 'c' {
            assert_eq!(now, *old);
        }
    }
    assert_eq!(ring.get_hashed(25), Some(&'a'));
}

#[test]
fn add_then_remove_gives_back_the_ring() {
    let mut ring = small_ring();
    ring.add_hashed(17, 'q');
    assert_eq!(ring.get_hashed(17), Some(&'q'));
    assert_eq!(ring.remove_hashed(17), Some('q'));
    assert_eq!(ring.len(), 3);
    let mut it = ring.into_iter();
    assert_eq!(it.next(), Some('a'));
    assert_eq!(it.next(), Some('b'));
    assert_eq!(it.next(), Some('c'));
    assert_eq!(it.next(), None);
}

#[test]
fn get_hashes_the_key_with_siphash() {
    let mut ring: HashRing<VNode> = HashRing::new();
    for id in 0..8 {
        ring.add(VNode::new("10.0.0.1", 80, id));
    }
    for key in ["foo", "bar", "baz", "abc", "cat"] {
        assert_eq!(ring.get(&key), ring.get_hashed(sip_of(&key)));
    }
    assert_eq!(ring.get(&7u64), ring.get_hashed(sip_of(&7u64)));
}

#[test]
fn add_places_node_at_its_siphash() {
    let mut ring: HashRing<u64> = HashRing::new();
    ring.add(42);
    ring.add(7);
    let h42 = sip_of(&42u64);
    let h7 = sip_of(&7u64);
    assert_eq!(ring.get_hashed(h42), Some(&42));
    assert_eq!(ring.get_hashed(h7), Some(&7));
    assert_eq!(ring.remove_hashed(h7), Some(7));
    assert_eq!(ring.remove(&42), Some(42));
    assert!(ring.is_empty());
}

#[test]
fn remove_of_absent_node_is_none() {
    let mut ring: HashRing<u64> = HashRing::new();
    assert_eq!(ring.remove(&1), None);
    ring.add(1);
    assert_eq!(ring.remove(&2), None);
    assert_eq!(ring.len(), 1);
}

#[test]
fn batch_add_equals_adding_in_turn() {
    let mut one: HashRing<u64> = HashRing::new();
    let mut all: HashRing<u64> = HashRing::new();
    one.add(100);
    all.add(100);
    for n in [3u64, 1, 4, 1, 5, 9, 2, 6] {
        one.add(n);
    }
    all.batch_add(vec![3, 1, 4, 1, 5, 9, 2, 6]);
    assert_eq!(one.len(), 9);
    assert_eq!(all.len(), 9);
    let mut a = one.into_iter();
    let mut b = all.into_iter();
    for _ in 0..10 {
        assert_eq!(a.next(), b.next());
    }
}

#[test]
fn batch_add_of_nothing_changes_nothing() {
    let mut ring = small_ring();
    ring.batch_add(Vec::new());
    assert_eq!(ring.len(), 3);
}

#[test]
fn with_hasher_uses_the_given_builder() {
    let builder: BuildHasherDefault<std::collections::hash_map::DefaultHasher> =
        BuildHasherDefault::default();
    let mut ring: HashRing<u64, _> = HashRing::with_hasher(builder.clone());
    assert!(ring.is_empty());
    ring.add(11);
    ring.add(12);
    ring.add(13);
    for key in ["foo", "bar", "baz"] {
        let h = builder.hash_one(key);
        assert_eq!(ring.get(&key), ring.get_hashed(h));
        let mut hasher = builder.build_hasher();
        key.hash(&mut hasher);
        assert_eq!(h, hasher.finish());
    }
    assert_eq!(ring.remove(&12), Some(12));
    assert_eq!(ring.len(), 2);
}

#[test]
fn default_builder_is_siphash_with_zero_keys() {
    let mut hasher = DefaultHashBuilder.build_hasher();
    "foo".hash(&mut hasher);
    assert_eq!(hasher.finish(), sip_of(&"foo"));
}

#[test]
fn default_ring_is_empty() {
    let ring: HashRing<u8> = HashRing::default();
    assert_eq!(ring.len(), 0);
    assert!(ring.is_empty());
    assert_eq!(ring.get(&"foo"), None);
    assert_eq!(ring.get_with_replicas(&"foo", 0), None);
}

#[test]
fn cloned_ring_is_independent() {
    let mut ring = small_ring();
    let copy = ring.clone();
    assert_eq!(ring.remove_hashed(10), Some('a'));
    assert_eq!(ring.len(), 2);
    assert_eq!(copy.len(), 3);
    assert_eq!(copy.get_hashed(5), Some(&'a'));
    assert!(format!("{:?}", copy).contains("HashRing"));
}

#[test]
fn rings_compare_by_builder_and_positions() {
    let a = small_ring();
    let b = small_ring();
    assert!(a == b);
    let mut c = small_ring();
    c.remove_hashed(20);
    assert!(a != c);
    let mut d: HashRing<char> = HashRing::new();
    d.add_hashed(10, 'z');
    d.add_hashed(20, 'y');
    d.add_hashed(30, 'x');
    assert!(a == d);
}

#[test]
fn adding_a_node_twice_then_removing_it_leaves_one_copy() {
    let mut ring: HashRing<u64> = HashRing::new();
    ring.add(5);
    ring.add(9);
    ring.add(9);
    assert_eq!(ring.len(), 3);
    assert_eq!(ring.remove(&9), Some(9));
    assert_eq!(ring.len(), 2);
    assert_eq!(ring.get_hashed(sip_of(&9u64)), Some(&9));
    assert_eq!(ring.remove(&9), Some(9));
    assert_eq!(ring.remove(&9), None);
    assert_eq!(ring.len(), 1);
}

#[test]
fn replica_lists_share_their_start() {
    let ring = small_ring();
    for h in [0u64, 15, 25, 35] {
        let served = *ring.get_hashed(h).unwrap();
        let mut previous: Vec<char> = Vec::new();
        for r in 0..3usize {
            let list = ring.get_with_replicas_hashed(h, r).unwrap();
            assert_eq!(list[0], served);
            assert_eq!(list.len(), r + 1);
            assert_eq!(&list[..previous.len()], &previous[..]);
            previous = list;
        }
    }
}

#[test]
fn replicas_at_the_largest_count_give_the_whole_ring() {
    let ring = small_ring();
    assert_eq!(
        ring.get_with_replicas_hashed(15, usize::MAX),
        Some(vec!['b', 'c', 'a'])
    );
    assert_eq!(ring.get_with_replicas(&"foo", usize::MAX).map(|v| v.len()), Some(3));
}
