//! Per-connection decisions and the listener's behaviour.
//!
//! One accepted connection runs: handshake, selection, dial, splice. The
//! decisions along that path — which upstream leg to open, when a
//! connection fails, what an accept loop does with each event — are taken
//! here; the network shell only carries them out.

use vstd::prelude::*;

use crate::backend::Backend;
use crate::config::{LoadBalancer, Protocol, DEFAULT_VIRTUAL_NODES};
use crate::errors::ProxyError;
use crate::registry::Selector;
use crate::selector::{ConsistentHashing, LeastConnections, Random, RoundRobin, WeightedRoundRobin};

verus! {

/// How the upstream leg of one connection is to be opened.
#[derive(Clone, Copy, Debug, PartialEq, Eq, Structural)]
pub enum ConnectionPlan {
    /// Dial plain TCP and splice bytes both ways.
    TcpSplice(Backend),
    /// Open a WebSocket to the backend and forward frames both ways.
    WebSocket(Backend),
}

/// Decides one connection's upstream leg from the selection outcome and the
/// listener's protocol. No backend fails the connection; a protocol without
/// an upstream path in the stream core fails it too.
pub fn plan_connection(protocol: &Protocol, selected: Option<Backend>) -> (r: Result<
    ConnectionPlan,
    ProxyError,
>)
    ensures
        selected is None ==> r == Err::<ConnectionPlan, ProxyError>(ProxyError::NoBackendsAvailable),
        selected matches Some(b) ==> r == match protocol {
            Protocol::Tcp => Ok::<ConnectionPlan, ProxyError>(ConnectionPlan::TcpSplice(b)),
            Protocol::Ws => Ok::<ConnectionPlan, ProxyError>(ConnectionPlan::WebSocket(b)),
            Protocol::Udp => Err::<ConnectionPlan, ProxyError>(ProxyError::UnsupportedProtocol),
            Protocol::Http => Err::<ConnectionPlan, ProxyError>(ProxyError::UnsupportedProtocol),
        },
{
    let b = match selected {
        Some(b) => b,
        None => {
            return Err(ProxyError::NoBackendsAvailable);
        }
    };
    match protocol {
        Protocol::Tcp => Ok(ConnectionPlan::TcpSplice(b)),
        Protocol::Ws => Ok(ConnectionPlan::WebSocket(b)),
        Protocol::Udp => Err(ProxyError::UnsupportedProtocol),
        Protocol::Http => Err(ProxyError::UnsupportedProtocol),
    }
}

/// What an accept loop sees on one turn.
#[derive(Clone, Copy, Debug, PartialEq, Eq, Structural)]
pub enum ListenerEvent {
    /// A connection was accepted.
    Incoming,
    /// The accept itself failed.
    AcceptError,
    /// The shutdown broadcast fired.
    Shutdown,
}

/// What the accept loop does with it.
#[derive(Clone, Copy, Debug, PartialEq, Eq, Structural)]
pub enum ListenerAction {
    /// Hand the connection to its own task and accept again.
    HandleConnection,
    /// Note the failure and accept again.
    LogAndContinue,
    /// Stop accepting; in-flight connections run on.
    StopAccepting,
}

/// The accept loop's rule: only the shutdown signal stops the listener. A
/// failed accept — and, a fortiori, any failure inside one connection, a
/// failed handshake included — leaves the listener accepting the next
/// connection.
pub fn listener_decide(event: &ListenerEvent) -> (r: ListenerAction)
    ensures
        r == match event {
            ListenerEvent::Incoming => ListenerAction::HandleConnection,
            ListenerEvent::AcceptError => ListenerAction::LogAndContinue,
            ListenerEvent::Shutdown => ListenerAction::StopAccepting,
        },
        (r == ListenerAction::StopAccepting) <==> (*event == ListenerEvent::Shutdown),
{
    match event {
        ListenerEvent::Incoming => ListenerAction::HandleConnection,
        ListenerEvent::AcceptError => ListenerAction::LogAndContinue,
        ListenerEvent::Shutdown => ListenerAction::StopAccepting,
    }
}

/// How long the supervisor sleeps after the shutdown signal: the grace
/// period, then the exit timeout, in seconds.
pub fn drain_total_secs(grace: u64, exit: u64) -> (r: u64)
    ensures
        r == if grace + exit > u64::MAX {
            u64::MAX as int
        } else {
            grace + exit
        },
{
    grace.saturating_add(exit)
}

/// Builds the selector a configured policy asks for. The `ip_hash` policy
/// is served by consistent hashing over a fixed number of virtual nodes.
pub fn create_selector(kind: &LoadBalancer) -> (r: Selector)
    ensures
        match kind {
            LoadBalancer::RoundRobin => r == Selector::RoundRobin(RoundRobin { index: 0 }),
            LoadBalancer::WeightedRoundRobin => r == Selector::WeightedRoundRobin(
                WeightedRoundRobin { index: 0 },
            ),
            LoadBalancer::LeastConn => (r matches Selector::LeastConnections(lc) && lc@
                == Seq::<(crate::addr::SocketAddress, u64)>::empty() && lc.well_formed()),
            LoadBalancer::Random => r == Selector::Random(Random),
            LoadBalancer::IpHash => r == Selector::ConsistentHash(
                ConsistentHashing { virtual_nodes: DEFAULT_VIRTUAL_NODES },
            ),
        },
{
    match kind {
        LoadBalancer::RoundRobin => Selector::RoundRobin(RoundRobin::default()),
        LoadBalancer::WeightedRoundRobin => Selector::WeightedRoundRobin(
            WeightedRoundRobin::default(),
        ),
        LoadBalancer::LeastConn => Selector::LeastConnections(LeastConnections::default()),
        LoadBalancer::Random => Selector::Random(Random),
        LoadBalancer::IpHash => Selector::ConsistentHash(
            ConsistentHashing::new(DEFAULT_VIRTUAL_NODES),
        ),
    }
}

} // verus!
