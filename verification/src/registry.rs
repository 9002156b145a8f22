//! The backend registry and the load balancer.
//!
//! The registry owns the current snapshot and publishes a new one only when
//! a refresh produced a non-empty set: an empty result or a failed lookup is
//! an error and the prior snapshot is retained, so an observable publication
//! is never empty. Each publication raises the version; versions never go
//! back, which is the order readers observe publications in.

use vstd::prelude::*;

use crate::addr::{IpAddress, SocketAddress};
use crate::backend::{Backend, BackendSet};
use crate::errors::DiscoveryError;
use crate::selector::{
    ch_scores, first_argmin, fnv_key_of, total_weight, weighted_pick, wrap_inc, ConsistentHashing,
    LeastConnections, Random, RoundRobin, WeightedRoundRobin,
};

verus! {

/// The version after one publication: a saturated increment, so the order
/// never goes back.
pub open spec fn next_version(v: u64) -> u64 {
    if v == u64::MAX {
        v
    } else {
        (v + 1) as u64
    }
}

/// The registry's snapshot state: the current set and its publication
/// version. Version 0 is the initial, never-published empty state.
pub struct Backends {
    pub current: BackendSet,
    pub version: u64,
}

impl Backends {
    /// A published snapshot (version above 0) is never empty.
    pub open spec fn well_formed(&self) -> bool {
        &&& self.current.well_formed()
        &&& self.version > 0 ==> self.current@.len() > 0
    }

    pub fn new() -> (r: Backends)
        ensures
            r.well_formed(),
            r.current@ == Seq::<Backend>::empty(),
            r.version == 0,
    {
        Backends { current: BackendSet::new(), version: 0 }
    }

    /// Decides `well_formed` executably.
    pub fn check_well_formed(&self) -> (r: bool)
        ensures
            r == self.well_formed(),
    {
        self.current.check_well_formed() && (self.version == 0 || self.current.len() > 0)
    }

    /// A consistent read: the copy stands alone, unaffected by later
    /// publications.
    pub fn get_backends(&self) -> (r: BackendSet)
        ensures
            r@ == self.current@,
    {
        self.current.duplicate()
    }

    /// Applies one refresh outcome. A non-empty set is published and the
    /// version rises; an empty set or a failed lookup changes nothing and
    /// reports the error.
    pub fn apply_refresh(&mut self, outcome: Result<BackendSet, DiscoveryError>) -> (r: Result<
        (),
        DiscoveryError,
    >)
        requires
            old(self).well_formed(),
            outcome matches Ok(s) ==> s.well_formed(),
        ensures
            final(self).well_formed(),
            final(self).version >= old(self).version,
            match outcome {
                Ok(snap) => if snap@.len() > 0 {
                    &&& r == Ok::<(), DiscoveryError>(())
                    &&& final(self).current@ == snap@
                    &&& final(self).version == next_version(old(self).version)
                } else {
                    &&& r == Err::<(), DiscoveryError>(DiscoveryError::EmptyResolution)
                    &&& *final(self) == *old(self)
                },
                Err(e) => {
                    &&& r == Err::<(), DiscoveryError>(e)
                    &&& *final(self) == *old(self)
                },
            },
    {
        match outcome {
            Ok(snap) => {
                if snap.is_empty() {
                    Err(DiscoveryError::EmptyResolution)
                } else {
                    self.current = snap;
                    self.version = if self.version == u64::MAX {
                        self.version
                    } else {
                        self.version + 1
                    };
                    Ok(())
                }
            }
            Err(e) => Err(e),
        }
    }
}

/// Every observable publication holds at least one backend: a registry that
/// has published (version above 0) never shows an empty snapshot.
pub proof fn lemma_published_snapshot_nonempty(b: &Backends)
    requires
        b.well_formed(),
        b.version > 0,
    ensures
        b.current@.len() > 0,
{
}

/// Publication order is total and reads never go back: along any evolution
/// of the registry, where each step keeps or raises the version (as every
/// operation of this module does), a later read observes a version at least
/// as new as any earlier read.
pub proof fn lemma_reads_never_go_back(versions: Seq<u64>, i: int, j: int)
    requires
        forall|t: int| 0 <= t < versions.len() - 1 ==> #[trigger] versions[t] <= versions[t + 1],
        0 <= i <= j < versions.len(),
    ensures
        versions[i] <= versions[j],
    decreases j - i,
{
    if i < j {
        lemma_reads_never_go_back(versions, i + 1, j);
    }
}

/// Static discovery: an explicit list of backends, mutated in place by its
/// owner.
pub struct LocalDiscovery {
    pub backends: BackendSet,
}

impl Default for LocalDiscovery {
    fn default() -> (r: Self)
        ensures
            r.backends.well_formed(),
            r.backends@ == Seq::<Backend>::empty(),
    {
        LocalDiscovery { backends: BackendSet::new() }
    }
}

impl LocalDiscovery {
    pub fn with_backends(addrs: &Vec<SocketAddress>) -> (r: Self)
        ensures
            r.backends.well_formed(),
            forall|x: Backend|
                r.backends@.contains(x) <==> (addrs@.contains(x.addr) && x.weight == 1),
    {
        LocalDiscovery { backends: BackendSet::from_addrs(addrs) }
    }

    pub fn add_backend(&mut self, addr: SocketAddress)
        requires
            old(self).backends.well_formed(),
        ensures
            final(self).backends.well_formed(),
            forall|x: Backend|
                final(self).backends@.contains(x) <==> (old(self).backends@.contains(x) || x
                    == (Backend { addr, weight: 1usize })),
    {
        self.backends.insert(Backend { addr, weight: 1 });
    }

    pub fn remove_backend(&mut self, addr: &SocketAddress)
        requires
            old(self).backends.well_formed(),
        ensures
            final(self).backends.well_formed(),
            final(self).backends@ == old(self).backends@.filter(
                |x: Backend| x.addr != *addr,
            ),
    {
        self.backends.remove_addr(*addr);
    }

    pub fn set_backends(&mut self, addrs: &Vec<SocketAddress>)
        ensures
            final(self).backends.well_formed(),
            forall|x: Backend|
                final(self).backends@.contains(x) <==> (addrs@.contains(x.addr) && x.weight == 1),
    {
        self.backends = BackendSet::from_addrs(addrs);
    }

    pub fn clear_backends(&mut self)
        ensures
            final(self).backends.well_formed(),
            final(self).backends@ == Seq::<Backend>::empty(),
    {
        self.backends = BackendSet::new();
    }

    /// A static source yields its configured set as it stands; it may be
    /// empty, and the registry then refuses the publication.
    pub fn discover(&self) -> (r: Result<BackendSet, DiscoveryError>)
        ensures
            r matches Ok(s) && s@ == self.backends@,
    {
        Ok(self.backends.duplicate())
    }
}

/// DNS-based discovery: the resolution target. The lookup itself happens at
/// the network edge; this type turns its outcome into a snapshot.
#[derive(Debug)]
pub struct DnsDiscovery {
    pub hostname: String,
    pub port: u16,
}

impl DnsDiscovery {
    pub fn new(hostname: String, port: u16) -> (r: Self)
        ensures
            r.hostname@ == hostname@,
            r.port == port,
    {
        DnsDiscovery { hostname, port }
    }

    /// The computing half of one DNS refresh: one backend per distinct
    /// resolved address, on the configured port, each with weight 1. An
    /// empty resolution is a failure, not an empty snapshot.
    pub fn backends_from_ips(&self, ips: &Vec<IpAddress>) -> (r: Result<BackendSet, DiscoveryError>)
        ensures
            ips@.len() == 0 ==> r == Err::<BackendSet, DiscoveryError>(
                DiscoveryError::EmptyResolution,
            ),
            ips@.len() > 0 ==> (r matches Ok(s) && s.well_formed() && s@.len() > 0 && forall|
                x: Backend,
            |
                s@.contains(x) <==> (ips@.contains(x.addr.ip) && x.addr.port == self.port
                    && x.weight == 1)),
    {
        if ips.len() == 0 {
            return Err(DiscoveryError::EmptyResolution);
        }
        let mut addrs: Vec<SocketAddress> = Vec::new();
        let mut i: usize = 0;
        while i < ips.len()
            invariant
                i <= ips@.len(),
                addrs@.len() == i,
                forall|j: int|
                    0 <= j < i ==> addrs@[j] == (SocketAddress { ip: ips@[j], port: self.port }),
            decreases ips@.len() - i,
        {
            addrs.push(SocketAddress { ip: ips[i], port: self.port });
            i += 1;
        }
        let set = BackendSet::from_addrs(&addrs);
        proof {
            assert forall|x: Backend|
                set@.contains(x) <==> (ips@.contains(x.addr.ip) && x.addr.port == self.port
                    && x.weight == 1) by {
                if set@.contains(x) {
                    let j = choose|j: int| 0 <= j < addrs@.len() && addrs@[j] == x.addr;
                    assert(ips@[j] == x.addr.ip);
                }
                if ips@.contains(x.addr.ip) && x.addr.port == self.port && x.weight == 1 {
                    let j = choose|j: int| 0 <= j < ips@.len() && ips@[j] == x.addr.ip;
                    assert(addrs@[j] == x.addr);
                }
            }
            // The first address is in the set, so the set is not empty.
            let b0 = Backend { addr: addrs@[0], weight: 1usize };
            assert(addrs@.contains(b0.addr));
            assert(set@.contains(b0));
        }
        Ok(set)
    }
}

/// The selection policies, as one tagged value: no indirect calls on the
/// hot path, and the whole policy's behaviour stays in view.
pub enum Selector {
    RoundRobin(RoundRobin),
    WeightedRoundRobin(WeightedRoundRobin),
    LeastConnections(LeastConnections),
    Random(Random),
    ConsistentHash(ConsistentHashing),
}

impl Selector {
    pub open spec fn well_formed(&self) -> bool {
        match self {
            Selector::LeastConnections(lc) => lc.well_formed(),
            _ => true,
        }
    }

    /// Decides `well_formed` executably.
    pub fn check_well_formed(&self) -> (r: bool)
        ensures
            r == self.well_formed(),
    {
        match self {
            Selector::LeastConnections(lc) => lc.check_well_formed(),
            _ => true,
        }
    }
}

/// What one `select` call returns and how it moves the selector's state,
/// for every policy, over the snapshot the registry holds.
pub open spec fn select_spec(
    sel: Selector,
    sel_after: Selector,
    s: Seq<Backend>,
    key: Option<&str>,
    r: Option<Backend>,
) -> bool {
    match sel {
        Selector::RoundRobin(st) => {
            &&& s.len() == 0 ==> r is None && sel_after == sel
            &&& s.len() > 0 ==> {
                &&& r == Some(s[(st.index as int) % (s.len() as int)])
                &&& sel_after == Selector::RoundRobin(RoundRobin { index: wrap_inc(st.index) })
            }
        },
        Selector::WeightedRoundRobin(st) => {
            &&& s.len() == 0 ==> r is None && sel_after == sel
            &&& s.len() > 0 ==> {
                &&& r == Some(s[weighted_pick(s, (st.index as int) % total_weight(s))])
                &&& sel_after == Selector::WeightedRoundRobin(
                    WeightedRoundRobin { index: wrap_inc(st.index) },
                )
            }
        },
        Selector::LeastConnections(st) => {
            &&& sel_after == sel
            &&& s.len() == 0 ==> r is None
            &&& s.len() > 0 ==> r == Some(s[first_argmin(LeastConnections::scores(s, st@))])
        },
        Selector::Random(_) => {
            &&& sel_after == sel
            &&& s.len() == 0 ==> r is None
            &&& s.len() > 0 ==> (r matches Some(b) && s.contains(b))
        },
        Selector::ConsistentHash(st) => {
            &&& sel_after == sel
            &&& (s.len() == 0 || key is None || st.virtual_nodes == 0) ==> r is None
            &&& (key matches Some(k) ==> (s.len() > 0 && st.virtual_nodes > 0 ==> r == Some(
                s[first_argmin(ch_scores(s, st.virtual_nodes as int, fnv_key_of(k)))],
            )))
        },
    }
}

/// The load balancer: the registry's snapshot and one selection policy.
pub struct LoadBalancer {
    pub backends: Backends,
    pub selector: Selector,
}

impl LoadBalancer {
    pub open spec fn well_formed(&self) -> bool {
        &&& self.backends.well_formed()
        &&& self.selector.well_formed()
    }

    pub fn new(backends: Backends, selector: Selector) -> (r: LoadBalancer)
        ensures
            r.backends == backends,
            r.selector == selector,
    {
        LoadBalancer { backends, selector }
    }

    /// Decides `well_formed` executably.
    pub fn check_well_formed(&self) -> (r: bool)
        ensures
            r == self.well_formed(),
    {
        self.backends.check_well_formed() && self.selector.check_well_formed()
    }

    /// One selection over the current snapshot: an empty snapshot yields
    /// nothing, and each policy behaves as `select_spec` pins down.
    pub fn select(&mut self, key: Option<&str>) -> (r: Option<Backend>)
        requires
            old(self).well_formed(),
        ensures
            final(self).well_formed(),
            final(self).backends == old(self).backends,
            select_spec(
                old(self).selector,
                final(self).selector,
                old(self).backends.current@,
                key,
                r,
            ),
    {
        match &mut self.selector {
            Selector::RoundRobin(st) => st.select(&self.backends.current),
            Selector::WeightedRoundRobin(st) => st.select(&self.backends.current),
            Selector::LeastConnections(st) => st.select(&self.backends.current),
            Selector::Random(st) => st.select(&self.backends.current),
            Selector::ConsistentHash(st) => st.select(&self.backends.current, key),
        }
    }
}

} // verus!
