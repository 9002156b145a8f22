//! Error kinds of the proxy, by the phase that raises them.

use vstd::prelude::*;

verus! {

/// A configuration fault, fatal at startup.
#[derive(Clone, Copy, Debug, PartialEq, Eq, Structural)]
pub enum ConfigError {
    /// Neither a stream block nor an http block is present.
    MissingStreamAndHttp,
    /// A stream server has no TLS block.
    MissingTlsConfig,
    /// A server's `proxy_pass` names an upstream that does not exist.
    UnknownUpstream,
    /// An upstream has an empty server list where one entry is required.
    NoServers,
    /// A textual socket address could not be parsed.
    InvalidAddress,
    /// A listener asks for a protocol the stream core does not serve.
    UnsupportedProtocol,
}

/// A discovery fault, recoverable: the previous snapshot is retained.
#[derive(Clone, Copy, Debug, PartialEq, Eq, Structural)]
pub enum DiscoveryError {
    /// Resolution returned no addresses.
    EmptyResolution,
    /// The lookup itself failed.
    LookupFailed,
}

/// A per-connection fault: the connection is dropped, the listener lives on.
#[derive(Clone, Copy, Debug, PartialEq, Eq, Structural)]
pub enum ProxyError {
    /// The current snapshot offered no backend.
    NoBackendsAvailable,
    /// The listener's protocol has no upstream path in the stream core.
    UnsupportedProtocol,
}

} // verus!
