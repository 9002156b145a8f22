//! The configuration model and its rules.
//!
//! The document shape: top-level limits and timeouts, an optional stream
//! block and an optional http block, each with named upstreams and a server
//! list. Upstream maps are held as name/value pairs in document order; a
//! lookup takes the first entry under the name. Reading the document and
//! the environment overlay happens outside the library; the rules — what a
//! valid configuration is, which upstream a server routes to, and how a
//! listener is planned from it — are decided here.

use vstd::prelude::*;

use crate::addr::{IpAddress, SocketAddress};
use crate::errors::ConfigError;
use crate::parse::{
    parse_ipv4, parse_ipv6, parse_socket_addr_str, spec_parse_ipv4, spec_parse_ipv6,
    spec_parse_socket_addr,
};
use crate::registry::DnsDiscovery;
use vstd::string::StringSliceAdditionalSpecFns;
use vstd::utf8::encode_utf8;

verus! {

/// How many ring positions each backend gets under consistent hashing.
pub const DEFAULT_VIRTUAL_NODES: usize = 16;

/// What a listener speaks to its clients.
#[derive(Clone, Copy, Debug, PartialEq, Eq, Structural)]
pub enum Protocol {
    Tcp,
    Udp,
    Ws,
    Http,
}

/// The configured selection policy of an upstream.
#[derive(Clone, Copy, Debug, PartialEq, Eq, Structural)]
pub enum LoadBalancer {
    RoundRobin,
    LeastConn,
    Random,
    IpHash,
    WeightedRoundRobin,
}

/// How an upstream's backends are found.
#[derive(Clone, Copy, Debug, PartialEq, Eq, Structural)]
pub enum ServiceDiscovery {
    Dns,
    Local,
}

/// One configured upstream target.
#[derive(Clone, Debug)]
pub struct UpstreamServer {
    pub address: String,
    pub port: u16,
}

impl UpstreamServer {
    pub fn address(&self) -> (r: &str)
        ensures
            r@ == self.address@,
    {
        self.address.as_str()
    }

    pub fn port(&self) -> (r: u16)
        ensures
            r == self.port,
    {
        self.port
    }

    pub fn new(address: String, port: u16) -> (r: Self)
        ensures
            r.address@ == address@,
            r.port == port,
    {
        UpstreamServer { address, port }
    }

    /// The socket address this entry denotes: its address text read as a
    /// dotted-quad IPv4 address, or failing that as a bare IPv6 literal,
    /// with the configured port.
    pub fn to_socket_addrs(&self) -> (r: Result<SocketAddress, ConfigError>)
        ensures
            r == match upstream_server_addr(*self) {
                Some(a) => Ok::<SocketAddress, ConfigError>(a),
                None => Err::<SocketAddress, ConfigError>(ConfigError::InvalidAddress),
            },
    {
        let bytes = self.address.as_str().as_bytes();
        match parse_ipv4(bytes) {
            Some(ip) => Ok(SocketAddress { ip: IpAddress::V4(ip), port: self.port }),
            None => match parse_ipv6(bytes) {
                Some(ip) => Ok(SocketAddress { ip: IpAddress::V6(ip), port: self.port }),
                None => Err(ConfigError::InvalidAddress),
            },
        }
    }
}

/// One named upstream: a policy, a discovery mode, and its servers.
#[derive(Clone, Debug)]
pub struct Upstream {
    pub load_balancer: LoadBalancer,
    pub service_discovery: ServiceDiscovery,
    pub servers: Vec<UpstreamServer>,
}

impl Upstream {
    pub fn service_discovery(&self) -> (r: &ServiceDiscovery)
        ensures
            *r == self.service_discovery,
    {
        &self.service_discovery
    }

    pub fn load_balancer(&self) -> (r: &LoadBalancer)
        ensures
            *r == self.load_balancer,
    {
        &self.load_balancer
    }

    pub fn servers(&self) -> (r: &Vec<UpstreamServer>)
        ensures
            r == &self.servers,
    {
        &self.servers
    }

    pub fn new(
        load_balancer: LoadBalancer,
        service_discovery: ServiceDiscovery,
        servers: Vec<UpstreamServer>,
    ) -> (r: Self)
        ensures
            r.load_balancer == load_balancer,
            r.service_discovery == service_discovery,
            r.servers == servers,
    {
        Upstream { load_balancer, service_discovery, servers }
    }
}

/// Where a listener binds.
#[derive(Clone, Copy, Debug, PartialEq, Eq, Structural)]
pub struct ListenConfig {
    pub port: u16,
    pub protocol: Protocol,
}

impl ListenConfig {
    pub fn port(&self) -> (r: u16)
        ensures
            r == self.port,
    {
        self.port
    }

    pub fn protocol(&self) -> (r: &Protocol)
        ensures
            *r == self.protocol,
    {
        &self.protocol
    }

    pub fn new(port: u16, protocol: Protocol) -> (r: Self)
        ensures
            r.port == port,
            r.protocol == protocol,
    {
        ListenConfig { port, protocol }
    }
}

/// The TLS material and policy of one listener. The certificate fields are
/// paths to PEM files; reading them is the shell's business.
#[derive(Clone, Debug)]
pub struct TlsConfig {
    pub enabled: bool,
    pub proxy_tls_certificate: String,
    pub proxy_tls_certificate_key: String,
    pub proxy_tls_trusted_certificate: String,
    pub proxy_tls_verify: bool,
    pub proxy_tls_verify_depth: usize,
    pub proxy_tls_session_reuse: bool,
    pub proxy_tls_protocols: Vec<String>,
    pub proxy_tls_ciphers: String,
}

impl TlsConfig {
    pub fn enabled(&self) -> (r: bool)
        ensures
            r == self.enabled,
    {
        self.enabled
    }

    /// The path of the certificate chain file.
    pub fn proxy_tls_certificate(&self) -> (r: &str)
        ensures
            r@ == self.proxy_tls_certificate@,
    {
        self.proxy_tls_certificate.as_str()
    }

    /// The path of the private key file.
    pub fn proxy_tls_certificate_key(&self) -> (r: &str)
        ensures
            r@ == self.proxy_tls_certificate_key@,
    {
        self.proxy_tls_certificate_key.as_str()
    }

    /// The path of the trust-anchor file.
    pub fn proxy_tls_trusted_certificate(&self) -> (r: &str)
        ensures
            r@ == self.proxy_tls_trusted_certificate@,
    {
        self.proxy_tls_trusted_certificate.as_str()
    }

    pub fn proxy_tls_verify(&self) -> (r: bool)
        ensures
            r == self.proxy_tls_verify,
    {
        self.proxy_tls_verify
    }

    pub fn proxy_tls_verify_depth(&self) -> (r: usize)
        ensures
            r == self.proxy_tls_verify_depth,
    {
        self.proxy_tls_verify_depth
    }

    pub fn proxy_tls_session_reuse(&self) -> (r: bool)
        ensures
            r == self.proxy_tls_session_reuse,
    {
        self.proxy_tls_session_reuse
    }

    pub fn proxy_tls_protocols(&self) -> (r: &Vec<String>)
        ensures
            r == &self.proxy_tls_protocols,
    {
        &self.proxy_tls_protocols
    }

    pub fn proxy_tls_ciphers(&self) -> (r: &str)
        ensures
            r@ == self.proxy_tls_ciphers@,
    {
        self.proxy_tls_ciphers.as_str()
    }

    pub fn new(
        enabled: bool,
        proxy_tls_certificate: String,
        proxy_tls_certificate_key: String,
        proxy_tls_trusted_certificate: String,
        proxy_tls_verify: bool,
        proxy_tls_verify_depth: usize,
        proxy_tls_session_reuse: bool,
        proxy_tls_protocols: Vec<String>,
        proxy_tls_ciphers: String,
    ) -> (r: Self)
        ensures
            r.enabled == enabled,
            r.proxy_tls_certificate@ == proxy_tls_certificate@,
            r.proxy_tls_certificate_key@ == proxy_tls_certificate_key@,
            r.proxy_tls_trusted_certificate@ == proxy_tls_trusted_certificate@,
            r.proxy_tls_verify == proxy_tls_verify,
            r.proxy_tls_verify_depth == proxy_tls_verify_depth,
            r.proxy_tls_session_reuse == proxy_tls_session_reuse,
            r.proxy_tls_protocols == proxy_tls_protocols,
            r.proxy_tls_ciphers@ == proxy_tls_ciphers@,
    {
        TlsConfig {
            enabled,
            proxy_tls_certificate,
            proxy_tls_certificate_key,
            proxy_tls_trusted_certificate,
            proxy_tls_verify,
            proxy_tls_verify_depth,
            proxy_tls_session_reuse,
            proxy_tls_protocols,
            proxy_tls_ciphers,
        }
    }
}

/// One stream listener: where it listens, what it speaks, and which
/// upstream it proxies to.
#[derive(Clone, Debug)]
pub struct StreamServer {
    pub name: String,
    pub listen: ListenConfig,
    pub proxy_pass: String,
    pub tls: Option<TlsConfig>,
}

impl StreamServer {
    pub fn name(&self) -> (r: &str)
        ensures
            r@ == self.name@,
    {
        self.name.as_str()
    }

    pub fn listen(&self) -> (r: &ListenConfig)
        ensures
            *r == self.listen,
    {
        &self.listen
    }

    pub fn proxy_pass(&self) -> (r: &str)
        ensures
            r@ == self.proxy_pass@,
    {
        self.proxy_pass.as_str()
    }

    pub fn tls(&self) -> (r: Option<&TlsConfig>)
        ensures
            match r {
                Some(t) => self.tls matches Some(own) && *t == own,
                None => self.tls is None,
            },
    {
        self.tls.as_ref()
    }

    pub fn new(name: String, listen: ListenConfig, proxy_pass: String, tls: Option<TlsConfig>) -> (r:
        Self)
        ensures
            r.name == name,
            r.listen == listen,
            r.proxy_pass == proxy_pass,
            r.tls == tls,
    {
        StreamServer { name, listen, proxy_pass, tls }
    }

    pub fn set_name(&mut self, name: String)
        ensures
            *final(self) == (StreamServer { name, ..*old(self) }),
    {
        self.name = name;
    }

    pub fn set_listen(&mut self, listen: ListenConfig)
        ensures
            *final(self) == (StreamServer { listen, ..*old(self) }),
    {
        self.listen = listen;
    }

    pub fn set_proxy_pass(&mut self, proxy_pass: String)
        ensures
            *final(self) == (StreamServer { proxy_pass, ..*old(self) }),
    {
        self.proxy_pass = proxy_pass;
    }

    pub fn set_tls(&mut self, tls: Option<TlsConfig>)
        ensures
            *final(self) == (StreamServer { tls, ..*old(self) }),
    {
        self.tls = tls;
    }
}

/// The first upstream under the name, in document order.
pub open spec fn find_named(s: Seq<(String, Upstream)>, name: Seq<char>) -> Option<Upstream>
    decreases s.len(),
{
    if s.len() == 0 {
        None
    } else if s[0].0@ == name {
        Some(s[0].1)
    } else {
        find_named(s.subrange(1, s.len() as int), name)
    }
}

/// The stream block: named upstreams and the listeners over them.
#[derive(Clone, Debug)]
pub struct StreamConfig {
    pub upstreams: Vec<(String, Upstream)>,
    pub servers: Vec<StreamServer>,
}

impl StreamConfig {
    /// Looks an upstream up by name.
    pub fn upstream(&self, key: &str) -> (r: Option<&Upstream>)
        ensures
            match r {
                Some(u) => find_named(self.upstreams@, key@) == Some(*u),
                None => find_named(self.upstreams@, key@) is None,
            },
    {
        find_upstream(&self.upstreams, key)
    }

    pub fn servers(&self) -> (r: &Vec<StreamServer>)
        ensures
            r == &self.servers,
    {
        &self.servers
    }

    pub fn new(upstreams: Vec<(String, Upstream)>, servers: Vec<StreamServer>) -> (r: Self)
        ensures
            r.upstreams == upstreams,
            r.servers == servers,
    {
        StreamConfig { upstreams, servers }
    }
}

fn find_upstream<'a>(upstreams: &'a Vec<(String, Upstream)>, key: &str) -> (r: Option<
    &'a Upstream,
>)
    ensures
        match r {
            Some(u) => find_named(upstreams@, key@) == Some(*u),
            None => find_named(upstreams@, key@) is None,
        },
{
    let ghost s = upstreams@;
    let owned_key = key.to_owned();
    proof {
        assert(s.subrange(0, s.len() as int) =~= s);
    }
    let mut i: usize = 0;
    while i < upstreams.len()
        invariant
            i <= s.len(),
            upstreams@ == s,
            owned_key@ == key@,
            find_named(s, key@) == find_named(s.subrange(i as int, s.len() as int), key@),
        decreases s.len() - i,
    {
        proof {
            let rest = s.subrange(i as int, s.len() as int);
            assert(rest[0] == s[i as int]);
            assert(rest.subrange(1, rest.len() as int) =~= s.subrange(i + 1, s.len() as int));
        }
        if upstreams[i].0 == owned_key {
            return Some(&upstreams[i].1);
        }
        i += 1;
    }
    proof {
        assert(s.subrange(s.len() as int, s.len() as int) =~= Seq::<(String, Upstream)>::empty());
    }
    None
}

/// The http block. The http proxy path itself is declared, not served, but
/// its upstreams take part in upstream lookup.
#[derive(Clone, Debug)]
pub struct HttpConfig {
    pub upstreams: Vec<(String, Upstream)>,
    pub servers: Vec<HttpServer>,
}

impl HttpConfig {
    pub fn upstreams(&self) -> (r: &Vec<(String, Upstream)>)
        ensures
            r == &self.upstreams,
    {
        &self.upstreams
    }

    pub fn servers(&self) -> (r: &Vec<HttpServer>)
        ensures
            r == &self.servers,
    {
        &self.servers
    }
}

/// The path an http location matches.
#[derive(Clone, Debug)]
pub struct LocationConfig {
    pub path: String,
}

/// One http listener, as configured.
#[derive(Clone, Debug)]
pub struct HttpServer {
    pub name: String,
    pub listen: ListenConfig,
    pub tls: Option<TlsConfig>,
    pub proxy_pass: String,
    pub location: LocationConfig,
    pub proxy_http_version: String,
    pub proxy_set_header: String,
    pub keepalive_timeout: usize,
}

impl HttpServer {
    pub fn name(&self) -> (r: &str)
        ensures
            r@ == self.name@,
    {
        self.name.as_str()
    }

    pub fn listen(&self) -> (r: &ListenConfig)
        ensures
            *r == self.listen,
    {
        &self.listen
    }

    pub fn tls(&self) -> (r: Option<&TlsConfig>)
        ensures
            match r {
                Some(t) => self.tls matches Some(own) && *t == own,
                None => self.tls is None,
            },
    {
        self.tls.as_ref()
    }

    pub fn proxy_pass(&self) -> (r: &str)
        ensures
            r@ == self.proxy_pass@,
    {
        self.proxy_pass.as_str()
    }

    pub fn location(&self) -> (r: &LocationConfig)
        ensures
            r == &self.location,
    {
        &self.location
    }

    pub fn proxy_http_version(&self) -> (r: &str)
        ensures
            r@ == self.proxy_http_version@,
    {
        self.proxy_http_version.as_str()
    }

    pub fn proxy_set_header(&self) -> (r: &str)
        ensures
            r@ == self.proxy_set_header@,
    {
        self.proxy_set_header.as_str()
    }

    pub fn keepalive_timeout(&self) -> (r: usize)
        ensures
            r == self.keepalive_timeout,
    {
        self.keepalive_timeout
    }

    pub fn set_name(&mut self, name: String)
        ensures
            *final(self) == (HttpServer { name, ..*old(self) }),
    {
        self.name = name;
    }

    pub fn set_listen(&mut self, listen: ListenConfig)
        ensures
            *final(self) == (HttpServer { listen, ..*old(self) }),
    {
        self.listen = listen;
    }

    pub fn set_tls(&mut self, tls: Option<TlsConfig>)
        ensures
            *final(self) == (HttpServer { tls, ..*old(self) }),
    {
        self.tls = tls;
    }

    pub fn set_proxy_pass(&mut self, proxy_pass: String)
        ensures
            *final(self) == (HttpServer { proxy_pass, ..*old(self) }),
    {
        self.proxy_pass = proxy_pass;
    }

    pub fn set_location(&mut self, location: LocationConfig)
        ensures
            *final(self) == (HttpServer { location, ..*old(self) }),
    {
        self.location = location;
    }

    pub fn set_proxy_http_version(&mut self, proxy_http_version: String)
        ensures
            *final(self) == (HttpServer { proxy_http_version, ..*old(self) }),
    {
        self.proxy_http_version = proxy_http_version;
    }

    pub fn set_proxy_set_header(&mut self, proxy_set_header: String)
        ensures
            *final(self) == (HttpServer { proxy_set_header, ..*old(self) }),
    {
        self.proxy_set_header = proxy_set_header;
    }

    pub fn set_keepalive_timeout(&mut self, keepalive_timeout: usize)
        ensures
            *final(self) == (HttpServer { keepalive_timeout, ..*old(self) }),
    {
        self.keepalive_timeout = keepalive_timeout;
    }
}

/// The whole document: limits, timeouts (in seconds), and the two blocks.
#[derive(Clone, Debug)]
pub struct UmayConfig {
    pub worker_threads: usize,
    pub close_timeout: u64,
    pub exit_timeout: u64,
    pub shutdown_grace_period: u64,
    pub stream: Option<StreamConfig>,
    pub http: Option<HttpConfig>,
}

/// The upstream a name denotes: the stream block's entry first, then the
/// http block's.
pub open spec fn spec_get_upstream(c: UmayConfig, name: Seq<char>) -> Option<Upstream> {
    let from_stream = match c.stream {
        Some(sc) => find_named(sc.upstreams@, name),
        None => None,
    };
    match from_stream {
        Some(u) => Some(u),
        None => match c.http {
            Some(hc) => find_named(hc.upstreams@, name),
            None => None,
        },
    }
}

impl UmayConfig {
    /// A document must configure at least one of the two proxy paths.
    pub fn validate(&self) -> (r: Result<(), ConfigError>)
        ensures
            r == if self.stream is None && self.http is None {
                Err::<(), ConfigError>(ConfigError::MissingStreamAndHttp)
            } else {
                Ok::<(), ConfigError>(())
            },
    {
        if self.stream.is_none() && self.http.is_none() {
            Err(ConfigError::MissingStreamAndHttp)
        } else {
            Ok(())
        }
    }

    /// Looks a name up across both blocks, stream first.
    pub fn get_upstream(&self, name: &str) -> (r: Option<&Upstream>)
        ensures
            match r {
                Some(u) => spec_get_upstream(*self, name@) == Some(*u),
                None => spec_get_upstream(*self, name@) is None,
            },
    {
        if let Some(stream) = &self.stream {
            if let Some(u) = find_upstream(&stream.upstreams, name) {
                return Some(u);
            }
        }
        if let Some(http) = &self.http {
            if let Some(u) = find_upstream(&http.upstreams, name) {
                return Some(u);
            }
        }
        None
    }

    pub fn worker_threads(&self) -> (r: usize)
        ensures
            r == self.worker_threads,
    {
        self.worker_threads
    }

    /// Seconds to allow connections to close.
    pub fn close_timeout(&self) -> (r: u64)
        ensures
            r == self.close_timeout,
    {
        self.close_timeout
    }

    /// Seconds to wait before the process exits.
    pub fn exit_timeout(&self) -> (r: u64)
        ensures
            r == self.exit_timeout,
    {
        self.exit_timeout
    }

    /// Seconds of drain after the shutdown signal.
    pub fn shutdown_grace_period(&self) -> (r: u64)
        ensures
            r == self.shutdown_grace_period,
    {
        self.shutdown_grace_period
    }

    pub fn stream(&self) -> (r: Option<&StreamConfig>)
        ensures
            match r {
                Some(sc) => self.stream matches Some(own) && *sc == own,
                None => self.stream is None,
            },
    {
        self.stream.as_ref()
    }

    pub fn http(&self) -> (r: Option<&HttpConfig>)
        ensures
            match r {
                Some(hc) => self.http matches Some(own) && *hc == own,
                None => self.http is None,
            },
    {
        self.http.as_ref()
    }

    pub fn new(
        worker_threads: usize,
        close_timeout: u64,
        exit_timeout: u64,
        shutdown_grace_period: u64,
        stream: Option<StreamConfig>,
        http: Option<HttpConfig>,
    ) -> (r: Self)
        ensures
            r.worker_threads == worker_threads,
            r.close_timeout == close_timeout,
            r.exit_timeout == exit_timeout,
            r.shutdown_grace_period == shutdown_grace_period,
            r.stream == stream,
            r.http == http,
    {
        UmayConfig { worker_threads, close_timeout, exit_timeout, shutdown_grace_period, stream, http }
    }
}

/// A resolver override: nameservers, search domains, and the dot threshold.
#[derive(Clone, Debug, PartialEq, Eq)]
pub struct DnsConfig {
    pub nameservers: Option<Vec<String>>,
    pub search: Vec<String>,
    pub ndots: Option<usize>,
}

/// A resolver override with its nameservers read into addresses, ready for
/// the shell to build a resolver from.
#[derive(Debug)]
pub struct ResolverPlan {
    pub nameservers: Vec<SocketAddress>,
    pub search: Vec<String>,
    pub ndots: Option<usize>,
}

impl DnsConfig {
    /// Reads the nameserver texts into addresses. The first text that does
    /// not name an `ip:port` address fails the whole override.
    pub fn into_resolver_config(self) -> (r: Result<ResolverPlan, ConfigError>)
        ensures
            match r {
                Ok(plan) => {
                    &&& plan.search == self.search
                    &&& plan.ndots == self.ndots
                    &&& match self.nameservers {
                        Some(texts) => {
                            &&& plan.nameservers@.len() == texts@.len()
                            &&& forall|i: int|
                                0 <= i < texts@.len() ==> Some(#[trigger] plan.nameservers@[i])
                                    == spec_parse_socket_addr(encode_utf8(texts@[i]@))
                        },
                        None => plan.nameservers@.len() == 0,
                    }
                },
                Err(e) => {
                    &&& e == ConfigError::InvalidAddress
                    &&& self.nameservers matches Some(texts) && exists|i: int|
                        0 <= i < texts@.len() && spec_parse_socket_addr(
                            #[trigger] encode_utf8(texts@[i]@),
                        ) is None
                },
            },
    {
        let mut nameservers: Vec<SocketAddress> = Vec::new();
        match &self.nameservers {
            Some(texts) => {
                let mut i: usize = 0;
                while i < texts.len()
                    invariant
                        self.nameservers == Some(*texts),
                        i <= texts@.len(),
                        nameservers@.len() == i,
                        forall|j: int|
                            0 <= j < i ==> Some(#[trigger] nameservers@[j])
                                == spec_parse_socket_addr(encode_utf8(texts@[j]@)),
                    decreases texts@.len() - i,
                {
                    match parse_socket_addr_str(texts[i].as_str()) {
                        Some(a) => {
                            nameservers.push(a);
                        }
                        None => {
                            proof {
                                assert(spec_parse_socket_addr(
                                    encode_utf8(texts@[i as int]@),
                                ) is None);
                            }
                            return Err(ConfigError::InvalidAddress);
                        }
                    }
                    i += 1;
                }
            }
            None => {}
        }
        Ok(ResolverPlan { nameservers, search: self.search, ndots: self.ndots })
    }
}

/// How one planned listener finds its backends.
#[derive(Debug)]
pub enum DiscoveryPlan {
    Dns(DnsDiscovery),
    Local(Vec<SocketAddress>),
}

/// One listener, planned: the index of its stream server, where it binds,
/// and how its upstream is discovered and balanced.
#[derive(Debug)]
pub struct ListenerPlan {
    pub server_index: usize,
    pub port: u16,
    pub protocol: Protocol,
    pub lb_kind: LoadBalancer,
    pub discovery: DiscoveryPlan,
}

/// The socket address an upstream server entry denotes, if its text is an
/// address: a dotted-quad IPv4 text, or failing that a bare IPv6 literal.
pub open spec fn upstream_server_addr(us: UpstreamServer) -> Option<SocketAddress> {
    match spec_parse_ipv4(encode_utf8(us.address@)) {
        Some(ip) => Some(SocketAddress { ip: IpAddress::V4(ip), port: us.port }),
        None => match spec_parse_ipv6(encode_utf8(us.address@)) {
            Some(ip) => Some(SocketAddress { ip: IpAddress::V6(ip), port: us.port }),
            None => None,
        },
    }
}

/// Whether an upstream's discovery section can be planned, and the error
/// when it cannot: DNS needs a first server to name the resolution target;
/// a static list needs every address text to denote an address.
pub open spec fn spec_plan_discovery(u: Upstream) -> Result<(), ConfigError> {
    match u.service_discovery {
        ServiceDiscovery::Dns => if u.servers@.len() == 0 {
            Err(ConfigError::NoServers)
        } else {
            Ok(())
        },
        ServiceDiscovery::Local => if exists|i: int|
            0 <= i < u.servers@.len() && upstream_server_addr(#[trigger] u.servers@[i]) is None {
            Err(ConfigError::InvalidAddress)
        } else {
            Ok(())
        },
    }
}

/// Whether one stream server can be planned, and the error when it cannot,
/// in the order the checks run: a TLS block is required, the protocol must
/// be one the stream core serves, the named upstream must exist, and its
/// discovery section must be plannable.
pub open spec fn spec_plan_server(sv: StreamServer, sc: StreamConfig) -> Result<(), ConfigError> {
    if sv.tls is None {
        Err(ConfigError::MissingTlsConfig)
    } else if !(sv.listen.protocol == Protocol::Tcp || sv.listen.protocol == Protocol::Ws) {
        Err(ConfigError::UnsupportedProtocol)
    } else {
        match find_named(sc.upstreams@, sv.proxy_pass@) {
            None => Err(ConfigError::UnknownUpstream),
            Some(u) => spec_plan_discovery(u),
        }
    }
}

/// A plan agrees with its discovery section.
pub open spec fn discovery_matches(d: DiscoveryPlan, u: Upstream) -> bool {
    match u.service_discovery {
        ServiceDiscovery::Dns => {
            &&& d matches DiscoveryPlan::Dns(dd)
            &&& u.servers@.len() > 0
            &&& dd.hostname@ == u.servers@[0].address@
            &&& dd.port == u.servers@[0].port
        },
        ServiceDiscovery::Local => {
            &&& d matches DiscoveryPlan::Local(addrs)
            &&& addrs@.len() == u.servers@.len()
            &&& forall|k: int|
                0 <= k < u.servers@.len() ==> Some(#[trigger] addrs@[k]) == upstream_server_addr(
                    u.servers@[k],
                )
        },
    }
}

/// A plan agrees with its stream server.
pub open spec fn plan_matches(p: ListenerPlan, i: int, sc: StreamConfig) -> bool {
    &&& p.server_index == i
    &&& 0 <= i < sc.servers@.len()
    &&& p.port == sc.servers@[i].listen.port
    &&& p.protocol == sc.servers@[i].listen.protocol
    &&& match find_named(sc.upstreams@, sc.servers@[i].proxy_pass@) {
        Some(u) => p.lb_kind == u.load_balancer && discovery_matches(p.discovery, u),
        None => false,
    }
}

fn plan_discovery(u: &Upstream) -> (r: Result<DiscoveryPlan, ConfigError>)
    ensures
        match r {
            Ok(d) => spec_plan_discovery(*u) == Ok::<(), ConfigError>(()) && discovery_matches(
                d,
                *u,
            ),
            Err(e) => spec_plan_discovery(*u) == Err::<(), ConfigError>(e),
        },
{
    match u.service_discovery {
        ServiceDiscovery::Dns => {
            if u.servers.len() == 0 {
                Err(ConfigError::NoServers)
            } else {
                let hostname = u.servers[0].address().to_owned();
                let port = u.servers[0].port;
                let dd = DnsDiscovery::new(hostname, port);
                proof {
                    assert(spec_plan_discovery(*u) == Ok::<(), ConfigError>(()));
                    assert(dd.hostname@ == u.servers@[0].address@);
                    assert(discovery_matches(DiscoveryPlan::Dns(dd), *u));
                }
                Ok(DiscoveryPlan::Dns(dd))
            }
        }
        ServiceDiscovery::Local => {
            let mut addrs: Vec<SocketAddress> = Vec::new();
            let mut i: usize = 0;
            while i < u.servers.len()
                invariant
                    u.service_discovery == ServiceDiscovery::Local,
                    i <= u.servers@.len(),
                    addrs@.len() == i,
                    forall|k: int|
                        0 <= k < i ==> Some(#[trigger] addrs@[k]) == upstream_server_addr(
                            u.servers@[k],
                        ),
                decreases u.servers@.len() - i,
            {
                match u.servers[i].to_socket_addrs() {
                    Ok(a) => {
                        addrs.push(a);
                    }
                    Err(e) => {
                        proof {
                            assert(upstream_server_addr(u.servers@[i as int]) is None);
                        }
                        return Err(e);
                    }
                }
                i += 1;
            }
            proof {
                assert forall|k: int|
                    0 <= k < u.servers@.len() implies !(upstream_server_addr(
                    #[trigger] u.servers@[k],
                ) is None) by {
                    assert(Some(addrs@[k]) == upstream_server_addr(u.servers@[k]));
                }
            }
            Ok(DiscoveryPlan::Local(addrs))
        }
    }
}

/// Plans every stream listener of the document: one plan per stream server,
/// in order, or the first server's error. A document without a stream block
/// plans no listeners.
pub fn listener_plans(cfg: &UmayConfig) -> (r: Result<Vec<ListenerPlan>, ConfigError>)
    ensures
        cfg.stream is None ==> (r matches Ok(v) && v@.len() == 0),
        cfg.stream matches Some(sc) ==> match r {
            Ok(v) => {
                &&& v@.len() == sc.servers@.len()
                &&& forall|i: int| 0 <= i < v@.len() ==> plan_matches(#[trigger] v@[i], i, sc)
                &&& forall|i: int|
                    0 <= i < sc.servers@.len() ==> spec_plan_server(
                        #[trigger] sc.servers@[i],
                        sc,
                    ) == Ok::<(), ConfigError>(())
            },
            Err(e) => exists|i: int|
                {
                    &&& 0 <= i < sc.servers@.len()
                    &&& spec_plan_server(#[trigger] sc.servers@[i], sc) == Err::<(), ConfigError>(e)
                    &&& forall|j: int|
                        0 <= j < i ==> spec_plan_server(#[trigger] sc.servers@[j], sc) == Ok::<
                            (),
                            ConfigError,
                        >(())
                },
        },
{
    let mut plans: Vec<ListenerPlan> = Vec::new();
    let sc = match &cfg.stream {
        Some(sc) => sc,
        None => {
            return Ok(plans);
        }
    };
    let mut i: usize = 0;
    while i < sc.servers.len()
        invariant
            cfg.stream == Some(*sc),
            i <= sc.servers@.len(),
            plans@.len() == i,
            forall|k: int| 0 <= k < i ==> plan_matches(#[trigger] plans@[k], k, *sc),
            forall|k: int|
                0 <= k < i ==> spec_plan_server(#[trigger] sc.servers@[k], *sc) == Ok::<
                    (),
                    ConfigError,
                >(()),
        decreases sc.servers@.len() - i,
    {
        let sv = &sc.servers[i];
        if sv.tls.is_none() {
            proof {
                assert(spec_plan_server(sc.servers@[i as int], *sc) == Err::<(), ConfigError>(
                    ConfigError::MissingTlsConfig,
                ));
            }
            return Err(ConfigError::MissingTlsConfig);
        }
        let proto_ok = match sv.listen.protocol {
            Protocol::Tcp => true,
            Protocol::Ws => true,
            Protocol::Udp => false,
            Protocol::Http => false,
        };
        if !proto_ok {
            proof {
                assert(spec_plan_server(sc.servers@[i as int], *sc) == Err::<(), ConfigError>(
                    ConfigError::UnsupportedProtocol,
                ));
            }
            return Err(ConfigError::UnsupportedProtocol);
        }
        let u = match sc.upstream(sv.proxy_pass()) {
            Some(u) => u,
            None => {
                proof {
                    assert(spec_plan_server(sc.servers@[i as int], *sc) == Err::<(), ConfigError>(
                        ConfigError::UnknownUpstream,
                    ));
                }
                return Err(ConfigError::UnknownUpstream);
            }
        };
        let discovery = match plan_discovery(u) {
            Ok(d) => d,
            Err(e) => {
                proof {
                    assert(spec_plan_server(sc.servers@[i as int], *sc) == Err::<(), ConfigError>(
                        e,
                    ));
                }
                return Err(e);
            }
        };
        let plan = ListenerPlan {
            server_index: i,
            port: sv.listen.port,
            protocol: sv.listen.protocol,
            lb_kind: u.load_balancer,
            discovery,
        };
        plans.push(plan);
        proof {
            assert(plan_matches(plans@[i as int], i as int, *sc));
            assert(spec_plan_server(sc.servers@[i as int], *sc) == Ok::<(), ConfigError>(()));
        }
        i += 1;
    }
    Ok(plans)
}

} // verus!
