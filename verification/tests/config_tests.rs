use umay::addr::{IpAddress, SocketAddress};
use umay::config::{
    DnsConfig, DiscoveryPlan, ListenConfig, LoadBalancer, Protocol, ServiceDiscovery,
    StreamConfig, StreamServer, TlsConfig, UmayConfig, Upstream, UpstreamServer,
};
use umay::errors::ConfigError;

fn tls() -> TlsConfig {
    TlsConfig::new(
        true,
        "certs/server.crt".to_string(),
        "certs/server.key".to_string(),
        "certs/ca.crt".to_string(),
        true,
        2,
        false,
        vec!["TLSv1.3".to_string()],
        "default".to_string(),
    )
}

fn upstream_local(addresses: &[(&str, u16)]) -> Upstream {
    let servers = addresses
        .iter()
        .map(|&(a, p)| UpstreamServer::new(a.to_string(), p))
        .collect();
    Upstream::new(LoadBalancer::RoundRobin, ServiceDiscovery::Local, servers)
}

fn stream_server(name: &str, port: u16, protocol: Protocol, pass: &str) -> StreamServer {
    StreamServer::new(
        name.to_string(),
        ListenConfig::new(port, protocol),
        pass.to_string(),
        Some(tls()),
    )
}

fn config_with(stream: Option<StreamConfig>) -> UmayConfig {
    UmayConfig::new(4, 5, 10, 30, stream, None)
}

#[test]
fn a_document_needs_one_proxy_path() {
    let empty = UmayConfig::new(1, 1, 1, 1, None, None);
    assert_eq!(empty.validate().unwrap_err(), ConfigError::MissingStreamAndHttp);
    let with_stream = config_with(Some(StreamConfig::new(vec![], vec![])));
    assert!(with_stream.validate().is_ok());
}

#[test]
fn upstream_lookup_takes_the_first_entry_under_the_name() {
    let sc = StreamConfig::new(
        vec![
            ("echo".to_string(), upstream_local(&[("1.1.1.1", 80)])),
            ("echo".to_string(), upstream_local(&[("2.2.2.2", 80)])),
        ],
        vec![],
    );
    let u = sc.upstream("echo").expect("present");
    assert_eq!(u.servers()[0].address(), "1.1.1.1");
    assert!(sc.upstream("missing").is_none());
}

#[test]
fn get_upstream_searches_stream_then_http() {
    let cfg = config_with(Some(StreamConfig::new(
        vec![("echo".to_string(), upstream_local(&[("1.2.3.4", 81)]))],
        vec![],
    )));
    assert!(cfg.get_upstream("echo").is_some());
    assert!(cfg.get_upstream("other").is_none());
}

#[test]
fn listener_plans_cover_every_stream_server() {
    let sc = StreamConfig::new(
        vec![("echo".to_string(), upstream_local(&[("127.0.0.1", 1994)]))],
        vec![stream_server("s1", 9994, Protocol::Tcp, "echo")],
    );
    let plans = umay::config::listener_plans(&config_with(Some(sc))).expect("plannable");
    assert_eq!(plans.len(), 1);
    let p = &plans[0];
    assert_eq!(p.server_index, 0);
    assert_eq!(p.port, 9994);
    assert_eq!(p.protocol, Protocol::Tcp);
    assert_eq!(p.lb_kind, LoadBalancer::RoundRobin);
    match &p.discovery {
        DiscoveryPlan::Local(addrs) => {
            assert_eq!(addrs.len(), 1);
            assert_eq!(addrs[0], SocketAddress::new(IpAddress::V4(0x7f00_0001), 1994));
        }
        DiscoveryPlan::Dns(_) => panic!("static discovery expected"),
    }
}

#[test]
fn a_server_without_tls_cannot_be_planned() {
    let mut sv = stream_server("s1", 9994, Protocol::Tcp, "echo");
    sv.set_tls(None);
    let sc = StreamConfig::new(
        vec![("echo".to_string(), upstream_local(&[("127.0.0.1", 1994)]))],
        vec![sv],
    );
    assert_eq!(
        umay::config::listener_plans(&config_with(Some(sc))).unwrap_err(),
        ConfigError::MissingTlsConfig
    );
}

#[test]
fn a_udp_listener_cannot_be_planned() {
    let sc = StreamConfig::new(
        vec![("echo".to_string(), upstream_local(&[("127.0.0.1", 1994)]))],
        vec![stream_server("s1", 9994, Protocol::Udp, "echo")],
    );
    assert_eq!(
        umay::config::listener_plans(&config_with(Some(sc))).unwrap_err(),
        ConfigError::UnsupportedProtocol
    );
}

#[test]
fn an_unknown_upstream_cannot_be_planned() {
    let sc = StreamConfig::new(vec![], vec![stream_server("s1", 9994, Protocol::Tcp, "echo")]);
    assert_eq!(
        umay::config::listener_plans(&config_with(Some(sc))).unwrap_err(),
        ConfigError::UnknownUpstream
    );
}

#[test]
fn dns_discovery_needs_a_resolution_target() {
    let u = Upstream::new(LoadBalancer::Random, ServiceDiscovery::Dns, vec![]);
    let sc = StreamConfig::new(
        vec![("echo".to_string(), u)],
        vec![stream_server("s1", 9994, Protocol::Tcp, "echo")],
    );
    assert_eq!(
        umay::config::listener_plans(&config_with(Some(sc))).unwrap_err(),
        ConfigError::NoServers
    );
}

#[test]
fn dns_discovery_takes_the_first_entry_as_target() {
    let u = Upstream::new(
        LoadBalancer::Random,
        ServiceDiscovery::Dns,
        vec![
            UpstreamServer::new("echo.example".to_string(), 7777),
            UpstreamServer::new("ignored.example".to_string(), 1),
        ],
    );
    let sc = StreamConfig::new(
        vec![("echo".to_string(), u)],
        vec![stream_server("s1", 9994, Protocol::Ws, "echo")],
    );
    let plans = umay::config::listener_plans(&config_with(Some(sc))).unwrap();
    match &plans[0].discovery {
        DiscoveryPlan::Dns(dd) => {
            assert_eq!(dd.hostname, "echo.example");
            assert_eq!(dd.port, 7777);
        }
        DiscoveryPlan::Local(_) => panic!("dns discovery expected"),
    }
}

#[test]
fn a_bad_static_address_cannot_be_planned() {
    let sc = StreamConfig::new(
        vec![("echo".to_string(), upstream_local(&[("localhost", 1994)]))],
        vec![stream_server("s1", 9994, Protocol::Tcp, "echo")],
    );
    assert_eq!(
        umay::config::listener_plans(&config_with(Some(sc))).unwrap_err(),
        ConfigError::InvalidAddress
    );
}

#[test]
fn a_document_without_a_stream_block_plans_nothing() {
    let cfg = UmayConfig::new(1, 1, 1, 1, None, None);
    assert_eq!(umay::config::listener_plans(&cfg).unwrap().len(), 0);
}

#[test]
fn resolver_override_reads_its_nameservers() {
    let dns = DnsConfig {
        nameservers: Some(vec!["8.8.8.8:53".to_string(), "1.1.1.1:53".to_string()]),
        search: vec!["cluster.local".to_string()],
        ndots: Some(2),
    };
    let plan = dns.into_resolver_config().expect("valid");
    assert_eq!(plan.nameservers.len(), 2);
    assert_eq!(plan.nameservers[0], SocketAddress::new(IpAddress::V4(0x0808_0808), 53));
    assert_eq!(plan.search, vec!["cluster.local".to_string()]);
    assert_eq!(plan.ndots, Some(2));
}

#[test]
fn a_bad_nameserver_fails_the_override() {
    let dns = DnsConfig {
        nameservers: Some(vec!["dns.google".to_string()]),
        search: vec![],
        ndots: None,
    };
    assert_eq!(dns.into_resolver_config().unwrap_err(), ConfigError::InvalidAddress);
}

#[test]
fn stream_server_setters_replace_their_field() {
    let mut sv = stream_server("old", 1, Protocol::Tcp, "a");
    sv.set_name("new".to_string());
    sv.set_listen(ListenConfig::new(2, Protocol::Ws));
    sv.set_proxy_pass("b".to_string());
    assert_eq!(sv.name(), "new");
    assert_eq!(sv.listen().port(), 2);
    assert_eq!(sv.proxy_pass(), "b");
    assert!(sv.tls().is_some());
}

#[test]
fn tls_config_exposes_its_fields() {
    let t = tls();
    assert!(t.enabled());
    assert_eq!(t.proxy_tls_certificate(), "certs/server.crt");
    assert_eq!(t.proxy_tls_certificate_key(), "certs/server.key");
    assert_eq!(t.proxy_tls_trusted_certificate(), "certs/ca.crt");
    assert!(t.proxy_tls_verify());
    assert_eq!(t.proxy_tls_verify_depth(), 2);
    assert!(!t.proxy_tls_session_reuse());
    assert_eq!(t.proxy_tls_protocols(), &vec!["TLSv1.3".to_string()]);
    assert_eq!(t.proxy_tls_ciphers(), "default");
}

#[test]
fn timeouts_are_reported_in_seconds() {
    let cfg = config_with(Some(StreamConfig::new(vec![], vec![])));
    assert_eq!(cfg.worker_threads(), 4);
    assert_eq!(cfg.close_timeout(), 5);
    assert_eq!(cfg.exit_timeout(), 10);
    assert_eq!(cfg.shutdown_grace_period(), 30);
}
