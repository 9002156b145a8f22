use umay::addr::{IpAddress, SocketAddress};
use umay::backend::BackendSet;
use umay::errors::DiscoveryError;
use umay::pipeline::create_selector;
use umay::config::LoadBalancer as LoadBalancerKind;
use umay::registry::{Backends, DnsDiscovery, LoadBalancer, LocalDiscovery};

fn addr(ip: u32, port: u16) -> SocketAddress {
    SocketAddress::new(IpAddress::V4(ip), port)
}

#[test]
fn publishing_a_nonempty_set_raises_the_version() {
    let mut b = Backends::new();
    assert_eq!(b.version, 0);
    let snap = BackendSet::from_addrs(&vec![addr(1, 80)]);
    b.apply_refresh(Ok(snap)).expect("publishes");
    assert_eq!(b.version, 1);
    assert_eq!(b.get_backends().len(), 1);
}

#[test]
fn an_empty_result_is_an_error_and_the_prior_snapshot_stays() {
    let mut b = Backends::new();
    b.apply_refresh(Ok(BackendSet::from_addrs(&vec![addr(1, 80)]))).unwrap();
    let before = b.version;
    let err = b.apply_refresh(Ok(BackendSet::new())).unwrap_err();
    assert_eq!(err, DiscoveryError::EmptyResolution);
    assert_eq!(b.version, before);
    assert_eq!(b.get_backends().len(), 1);
}

#[test]
fn a_failed_lookup_keeps_the_prior_snapshot() {
    let mut b = Backends::new();
    b.apply_refresh(Ok(BackendSet::from_addrs(&vec![addr(1, 80)]))).unwrap();
    let err = b.apply_refresh(Err(DiscoveryError::LookupFailed)).unwrap_err();
    assert_eq!(err, DiscoveryError::LookupFailed);
    assert_eq!(b.get_backends().len(), 1);
}

#[test]
fn refreshes_swap_without_an_empty_step() {
    // One address resolves first; after a refresh another takes its place.
    let mut b = Backends::new();
    let dns = DnsDiscovery::new("echo.example".to_string(), 7777);
    b.apply_refresh(dns.backends_from_ips(&vec![IpAddress::V4(0x0a00_0001)])).unwrap();
    let first = b.get_backends();
    assert_eq!(first.len(), 1);
    assert_eq!(first.get(0).addr, addr(0x0a00_0001, 7777));

    b.apply_refresh(dns.backends_from_ips(&vec![IpAddress::V4(0x0a00_0002)])).unwrap();
    let second = b.get_backends();
    assert_eq!(second.len(), 1);
    assert_eq!(second.get(0).addr, addr(0x0a00_0002, 7777));
    assert!(b.version >= 2);
}

#[test]
fn dns_discovery_fails_on_empty_resolution() {
    let dns = DnsDiscovery::new("echo.example".to_string(), 53);
    assert_eq!(dns.backends_from_ips(&vec![]).unwrap_err(), DiscoveryError::EmptyResolution);
}

#[test]
fn dns_discovery_collapses_duplicate_ips() {
    let dns = DnsDiscovery::new("echo.example".to_string(), 53);
    let set = dns
        .backends_from_ips(&vec![
            IpAddress::V4(1),
            IpAddress::V4(1),
            IpAddress::V4(2),
        ])
        .unwrap();
    assert_eq!(set.len(), 2);
    assert_eq!(set.get(0).weight, 1);
}

#[test]
fn local_discovery_mutates_its_set() {
    let mut local = LocalDiscovery::with_backends(&vec![addr(1, 80), addr(2, 80)]);
    assert_eq!(local.discover().unwrap().len(), 2);
    local.add_backend(addr(3, 80));
    assert_eq!(local.discover().unwrap().len(), 3);
    local.remove_backend(&addr(1, 80));
    assert_eq!(local.discover().unwrap().len(), 2);
    local.set_backends(&vec![addr(9, 9)]);
    assert_eq!(local.discover().unwrap().len(), 1);
    local.clear_backends();
    assert_eq!(local.discover().unwrap().len(), 0);
}

#[test]
fn load_balancer_selects_nothing_from_an_empty_registry() {
    let mut lb = LoadBalancer::new(Backends::new(), create_selector(&LoadBalancerKind::RoundRobin));
    assert!(lb.select(None).is_none());
}

#[test]
fn load_balancer_round_robins_over_the_published_set() {
    let mut backends = Backends::new();
    backends
        .apply_refresh(Ok(BackendSet::from_addrs(&vec![addr(1, 80), addr(2, 80)])))
        .unwrap();
    let mut lb = LoadBalancer::new(backends, create_selector(&LoadBalancerKind::RoundRobin));
    let a = lb.select(None).unwrap();
    let b = lb.select(None).unwrap();
    let c = lb.select(None).unwrap();
    assert_eq!(a.addr, addr(1, 80));
    assert_eq!(b.addr, addr(2, 80));
    assert_eq!(c.addr, addr(1, 80));
}

#[test]
fn load_balancer_routes_keys_consistently() {
    let mut backends = Backends::new();
    backends
        .apply_refresh(Ok(BackendSet::from_addrs(&vec![addr(1, 80), addr(2, 80)])))
        .unwrap();
    let mut lb = LoadBalancer::new(backends, create_selector(&LoadBalancerKind::IpHash));
    assert!(lb.select(None).is_none());
    let first = lb.select(Some("client-7")).unwrap();
    let second = lb.select(Some("client-7")).unwrap();
    assert_eq!(first, second);
}
