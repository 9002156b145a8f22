use umay::addr::{IpAddress, SocketAddress};
use umay::backend::{Backend, BackendSet};
use umay::selector::ConsistentHashing;

fn addr(ip: u32, port: u16) -> SocketAddress {
    SocketAddress::new(IpAddress::V4(ip), port)
}

#[test]
fn insert_keeps_ascending_order() {
    let mut set = BackendSet::new();
    set.insert(Backend { addr: addr(30, 1), weight: 1 });
    set.insert(Backend { addr: addr(10, 1), weight: 1 });
    set.insert(Backend { addr: addr(20, 1), weight: 1 });
    assert_eq!(set.len(), 3);
    assert_eq!(set.get(0).addr, addr(10, 1));
    assert_eq!(set.get(1).addr, addr(20, 1));
    assert_eq!(set.get(2).addr, addr(30, 1));
}

#[test]
fn insert_is_idempotent_per_backend() {
    let mut set = BackendSet::new();
    set.insert(Backend { addr: addr(1, 1), weight: 1 });
    set.insert(Backend { addr: addr(1, 1), weight: 1 });
    assert_eq!(set.len(), 1);
}

#[test]
fn same_address_different_weight_are_two_members() {
    let mut set = BackendSet::new();
    set.insert(Backend { addr: addr(1, 1), weight: 1 });
    set.insert(Backend { addr: addr(1, 1), weight: 2 });
    assert_eq!(set.len(), 2);
    assert_eq!(set.get(0).weight, 1);
    assert_eq!(set.get(1).weight, 2);
}

#[test]
fn remove_addr_drops_every_entry_at_that_address() {
    let mut set = BackendSet::new();
    set.insert(Backend { addr: addr(1, 1), weight: 1 });
    set.insert(Backend { addr: addr(1, 1), weight: 2 });
    set.insert(Backend { addr: addr(2, 2), weight: 1 });
    set.remove_addr(addr(1, 1));
    assert_eq!(set.len(), 1);
    assert_eq!(set.get(0).addr, addr(2, 2));
}

#[test]
fn from_addrs_collapses_duplicates() {
    let addrs = vec![addr(5, 5), addr(5, 5), addr(4, 4)];
    let set = BackendSet::from_addrs(&addrs);
    assert_eq!(set.len(), 2);
    assert_eq!(set.get(0).addr, addr(4, 4));
    assert_eq!(set.get(1).addr, addr(5, 5));
    assert_eq!(set.get(0).weight, 1);
}

#[test]
fn duplicate_copies_every_member() {
    let addrs = vec![addr(7, 7), addr(8, 8)];
    let set = BackendSet::from_addrs(&addrs);
    let copy = set.duplicate();
    assert_eq!(copy.len(), set.len());
    for i in 0..set.len() {
        assert_eq!(copy.get(i), set.get(i));
    }
}

#[test]
fn hash_key_is_a_function_of_the_fields() {
    let a = Backend { addr: addr(9, 9), weight: 3 };
    let b = Backend { addr: addr(9, 9), weight: 3 };
    let c = Backend { addr: addr(9, 10), weight: 3 };
    assert_eq!(a.hash_key(), b.hash_key());
    assert_ne!(a.hash_key(), c.hash_key());
}

#[test]
fn a_built_set_passes_its_own_shape_check() {
    let set = BackendSet::from_addrs(&vec![addr(3, 3), addr(1, 1), addr(2, 2)]);
    assert!(set.check_well_formed());
    assert!(BackendSet::new().check_well_formed());
}

#[test]
fn new_backend_carries_its_fields() {
    let b = Backend::new(addr(1, 2), 3);
    assert_eq!(b.addr, addr(1, 2));
    assert_eq!(b.weight, 3);
}

#[test]
fn ring_hash_has_known_values() {
    // FNV-1a of the empty input is the offset basis; of "a", the classic
    // published value.
    assert_eq!(ConsistentHashing::hash(&[]), 0xcbf2_9ce4_8422_2325);
    assert_eq!(ConsistentHashing::hash(b"a"), 0xaf63_dc4c_8601_ec8c);
}
