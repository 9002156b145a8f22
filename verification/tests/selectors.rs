use umay::addr::{IpAddress, SocketAddress};
use umay::backend::{Backend, BackendSet};
use umay::selector::{
    ConsistentHashing, LeastConnections, Random, RoundRobin, WeightedRoundRobin,
};

fn addr(ip: u32, port: u16) -> SocketAddress {
    SocketAddress::new(IpAddress::V4(ip), port)
}

fn set_of(weights: &[(u32, usize)]) -> BackendSet {
    let mut set = BackendSet::new();
    for &(ip, w) in weights {
        set.insert(Backend { addr: addr(ip, 80), weight: w });
    }
    set
}

#[test]
fn round_robin_cycles_in_order() {
    let set = set_of(&[(1, 1), (2, 1)]);
    let mut rr = RoundRobin::default();
    let picks: Vec<u32> = (0..4)
        .map(|_| match rr.select(&set).unwrap().addr.ip {
            IpAddress::V4(v) => v,
            IpAddress::V6(_) => unreachable!(),
        })
        .collect();
    assert_eq!(picks, vec![1, 2, 1, 2]);
}

#[test]
fn round_robin_covers_every_backend_in_one_window() {
    // Three consecutive selections over three backends hit all three.
    let set = set_of(&[(1, 1), (2, 1), (3, 1)]);
    let mut rr = RoundRobin::default();
    let mut seen = [false; 3];
    for _ in 0..3 {
        let b = rr.select(&set).unwrap();
        match b.addr.ip {
            IpAddress::V4(v) => seen[(v - 1) as usize] = true,
            IpAddress::V6(_) => unreachable!(),
        }
    }
    assert_eq!(seen, [true, true, true]);
}

#[test]
fn round_robin_on_empty_snapshot_yields_nothing() {
    let set = BackendSet::new();
    let mut rr = RoundRobin::default();
    assert!(rr.select(&set).is_none());
    assert_eq!(rr.index, 0);
}

#[test]
fn weighted_round_robin_respects_weights() {
    // Weights 3 and 1: over 8 selections the heavy backend appears 6 times.
    let set = set_of(&[(1, 3), (2, 1)]);
    let mut wrr = WeightedRoundRobin::default();
    let mut first = 0;
    let mut second = 0;
    for _ in 0..8 {
        match wrr.select(&set).unwrap().addr.ip {
            IpAddress::V4(1) => first += 1,
            IpAddress::V4(2) => second += 1,
            _ => unreachable!(),
        }
    }
    assert_eq!(first, 6);
    assert_eq!(second, 2);
}

#[test]
fn weighted_round_robin_walks_spans_in_order() {
    let set = set_of(&[(1, 2), (2, 1)]);
    let mut wrr = WeightedRoundRobin::default();
    let picks: Vec<u32> = (0..6)
        .map(|_| match wrr.select(&set).unwrap().addr.ip {
            IpAddress::V4(v) => v,
            IpAddress::V6(_) => unreachable!(),
        })
        .collect();
    assert_eq!(picks, vec![1, 1, 2, 1, 1, 2]);
}

#[test]
fn least_connections_prefers_the_idlest() {
    let set = set_of(&[(1, 1), (2, 1), (3, 1)]);
    let mut lc = LeastConnections::default();
    lc.increment(&addr(1, 80));
    lc.increment(&addr(1, 80));
    lc.increment(&addr(2, 80));
    let picked = lc.select(&set).unwrap();
    assert_eq!(picked.addr, addr(3, 80));
}

#[test]
fn least_connections_breaks_ties_towards_the_first() {
    let set = set_of(&[(1, 1), (2, 1)]);
    let lc = LeastConnections::default();
    assert_eq!(lc.select(&set).unwrap().addr, addr(1, 80));
}

#[test]
fn least_connections_counts_saturate_at_zero() {
    let mut lc = LeastConnections::default();
    lc.decrement(&addr(1, 80));
    assert_eq!(lc.count(&addr(1, 80)), 0);
    lc.increment(&addr(1, 80));
    assert_eq!(lc.count(&addr(1, 80)), 1);
    lc.decrement(&addr(1, 80));
    lc.decrement(&addr(1, 80));
    assert_eq!(lc.count(&addr(1, 80)), 0);
    assert_eq!(lc.count(&addr(9, 9)), 0);
}

#[test]
fn random_picks_members_only() {
    let set = set_of(&[(1, 1), (2, 1), (3, 1)]);
    let random = Random;
    for _ in 0..50 {
        let b = random.select(&set).unwrap();
        match b.addr.ip {
            IpAddress::V4(v) => assert!((1..=3).contains(&v)),
            IpAddress::V6(_) => unreachable!(),
        }
    }
    assert!(random.select(&BackendSet::new()).is_none());
}

#[test]
fn consistent_hashing_needs_a_key() {
    let set = set_of(&[(1, 1), (2, 1)]);
    let ch = ConsistentHashing::new(8);
    assert!(ch.select(&set, None).is_none());
    assert!(ch.select(&BackendSet::new(), Some("k")).is_none());
    let no_ring = ConsistentHashing::new(0);
    assert!(no_ring.select(&set, Some("k")).is_none());
}

#[test]
fn consistent_hashing_is_deterministic_per_key() {
    let set = set_of(&[(1, 1), (2, 1), (3, 1)]);
    let ch = ConsistentHashing::new(8);
    let first = ch.select(&set, Some("session-42")).unwrap();
    let second = ch.select(&set, Some("session-42")).unwrap();
    assert_eq!(first, second);
}
