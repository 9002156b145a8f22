//! Backends and the snapshot set.
//!
//! A backend is an (address, weight) pair, never mutated in place. A snapshot
//! is an ordered set of backends: the library keeps it as a vector sorted
//! strictly by (address, weight), so membership, iteration order and the
//! selectors' index arithmetic are all pinned down by the view.

use vstd::prelude::*;

use crate::addr::{addr_lt, lemma_addr_lt_trichotomy, SocketAddress};

verus! {

/// An upstream target: where to dial, and its share of the traffic.
#[derive(Clone, Copy, Debug, Hash, PartialEq, Eq, Structural)]
pub struct Backend {
    pub addr: SocketAddress,
    pub weight: usize,
}

impl Backend {
    /// A backend is made with a positive weight: weight 0 is disallowed by
    /// the data model.
    pub fn new(addr: SocketAddress, weight: usize) -> (r: Backend)
        requires
            weight >= 1,
        ensures
            r.addr == addr,
            r.weight == weight,
    {
        Backend { addr, weight }
    }
}

/// The strict order on backends: by address, then by weight.
pub open spec fn backend_lt(a: Backend, b: Backend) -> bool {
    ||| addr_lt(a.addr, b.addr)
    ||| (a.addr == b.addr && a.weight < b.weight)
}

pub proof fn lemma_backend_lt_trichotomy(a: Backend, b: Backend)
    ensures
        backend_lt(a, b) || backend_lt(b, a) || a == b,
        backend_lt(a, b) ==> !backend_lt(b, a),
        backend_lt(a, b) ==> a != b,
{
    lemma_addr_lt_trichotomy(a.addr, b.addr);
}

pub proof fn lemma_backend_lt_transitive(a: Backend, b: Backend, c: Backend)
    ensures
        backend_lt(a, b) && backend_lt(b, c) ==> backend_lt(a, c),
{
    lemma_addr_lt_trichotomy(a.addr, b.addr);
    lemma_addr_lt_trichotomy(b.addr, c.addr);
    lemma_addr_lt_trichotomy(a.addr, c.addr);
}

/// Strictly ascending in the backend order: sorted and duplicate-free.
pub open spec fn backends_sorted(s: Seq<Backend>) -> bool {
    forall|i: int, j: int| 0 <= i < j < s.len() ==> backend_lt(s[i], s[j])
}

/// How many entries of `s` sort strictly before `b`: the insertion point.
pub open spec fn count_lt(s: Seq<Backend>, b: Backend) -> int
    decreases s.len(),
{
    if s.len() == 0 {
        0
    } else {
        (if backend_lt(s[0], b) { 1int } else { 0int }) + count_lt(s.subrange(1, s.len() as int), b)
    }
}

proof fn lemma_count_lt_prefix(s: Seq<Backend>, b: Backend, idx: int)
    requires
        0 <= idx <= s.len(),
        forall|j: int| 0 <= j < idx ==> backend_lt(s[j], b),
        forall|k: int| idx <= k < s.len() ==> !backend_lt(s[k], b),
    ensures
        count_lt(s, b) == idx,
    decreases s.len(),
{
    if s.len() > 0 {
        let tail = s.subrange(1, s.len() as int);
        if idx > 0 {
            lemma_count_lt_prefix(tail, b, idx - 1);
        } else {
            lemma_count_lt_prefix(tail, b, 0);
        }
    }
}

/// An immutable, ordered set of backends: one published snapshot.
#[derive(Clone, Debug)]
pub struct BackendSet {
    items: Vec<Backend>,
}

impl View for BackendSet {
    type V = Seq<Backend>;

    closed spec fn view(&self) -> Seq<Backend> {
        self.items@
    }
}

impl BackendSet {
    /// Sorted, duplicate-free, and every weight positive.
    pub open spec fn well_formed(&self) -> bool {
        &&& backends_sorted(self@)
        &&& forall|i: int| 0 <= i < self@.len() ==> #[trigger] self@[i].weight >= 1
    }

    pub fn new() -> (r: BackendSet)
        ensures
            r.well_formed(),
            r@ == Seq::<Backend>::empty(),
    {
        let r = BackendSet { items: Vec::new() };
        proof {
            assert(r@ =~= Seq::<Backend>::empty());
        }
        r
    }

    pub fn len(&self) -> (r: usize)
        ensures
            r == self@.len(),
    {
        self.items.len()
    }

    pub fn is_empty(&self) -> (r: bool)
        ensures
            r == (self@.len() == 0),
    {
        self.items.len() == 0
    }

    pub fn get(&self, i: usize) -> (r: &Backend)
        requires
            i < self@.len(),
        ensures
            *r == self@[i as int],
    {
        &self.items[i]
    }

    /// Decides `backend_lt` executably.
    fn lt_exec(a: &Backend, b: &Backend) -> (r: bool)
        ensures
            r == backend_lt(*a, *b),
    {
        if a.addr == b.addr {
            a.weight < b.weight
        } else {
            a.addr.lt(&b.addr)
        }
    }

    /// Puts `b` in its place in the order; a backend already present stays
    /// single.
    pub fn insert(&mut self, b: Backend)
        requires
            old(self).well_formed(),
            b.weight >= 1,
        ensures
            final(self).well_formed(),
            old(self)@.contains(b) ==> final(self)@ == old(self)@,
            !old(self)@.contains(b) ==> final(self)@ == old(self)@.insert(
                count_lt(old(self)@, b),
                b,
            ),
            forall|x: Backend| final(self)@.contains(x) <==> (old(self)@.contains(x) || x == b),
    {
        let ghost s = self@;
        let mut idx: usize = 0;
        while idx < self.items.len() && Self::lt_exec(&self.items[idx], &b)
            invariant
                idx <= s.len(),
                self@ == s,
                self.well_formed(),
                forall|j: int| 0 <= j < idx ==> backend_lt(s[j], b),
            decreases s.len() - idx,
        {
            idx += 1;
        }
        // Every entry past `idx` sorts at or after `b`.
        proof {
            if idx < s.len() {
                assert forall|k: int| idx <= k < s.len() implies !backend_lt(s[k], b) by {
                    if k > idx {
                        lemma_backend_lt_trichotomy(s[idx as int], b);
                        lemma_backend_lt_trichotomy(s[k], b);
                        lemma_backend_lt_transitive(s[idx as int], s[k], b);
                    }
                }
            }
        }
        if idx < self.items.len() && self.items[idx] == b {
            // Already a member: the set is unchanged.
            proof {
                assert(s.contains(b)) by {
                    assert(s[idx as int] == b);
                }
            }
            return;
        }
        // Not a member: entries before `idx` sort below `b`, entries from
        // `idx` on sort above it.
        proof {
            if idx < s.len() {
                lemma_backend_lt_trichotomy(s[idx as int], b);
                assert(backend_lt(b, s[idx as int]));
            }
            assert forall|k: int| idx <= k < s.len() implies backend_lt(b, s[k]) by {
                if k > idx {
                    lemma_backend_lt_transitive(b, s[idx as int], s[k]);
                }
            }
            assert(!s.contains(b)) by {
                assert forall|k: int| 0 <= k < s.len() implies s[k] != b by {
                    if k < idx {
                        lemma_backend_lt_trichotomy(s[k], b);
                    } else {
                        lemma_backend_lt_trichotomy(b, s[k]);
                    }
                }
            }
            lemma_count_lt_prefix(s, b, idx as int);
        }
        self.items.insert(idx, b);
        proof {
            let t = s.insert(idx as int, b);
            assert(self@ == t);
            assert forall|i: int, j: int| 0 <= i < j < t.len() implies backend_lt(t[i], t[j]) by {
                if j < idx {
                    assert(t[i] == s[i] && t[j] == s[j]);
                } else if i > idx {
                    assert(t[i] == s[i - 1] && t[j] == s[j - 1]);
                } else if i < idx && j == idx {
                    assert(t[i] == s[i] && t[j] == b);
                } else if i < idx && j > idx {
                    assert(t[i] == s[i] && t[j] == s[j - 1]);
                } else if i == idx {
                    assert(t[i] == b && t[j] == s[j - 1]);
                }
            }
            assert forall|i: int| 0 <= i < t.len() implies #[trigger] t[i].weight >= 1 by {
                if i < idx {
                    assert(t[i] == s[i]);
                } else if i == idx {
                    assert(t[i] == b);
                } else {
                    assert(t[i] == s[i - 1]);
                }
            }
            assert forall|x: Backend| t.contains(x) <==> (s.contains(x) || x == b) by {
                if t.contains(x) {
                    let i = choose|i: int| 0 <= i < t.len() && t[i] == x;
                    if i < idx {
                        assert(s[i] == x);
                    } else if i == idx {
                        assert(x == b);
                    } else {
                        assert(s[i - 1] == x);
                    }
                }
                if s.contains(x) {
                    let i = choose|i: int| 0 <= i < s.len() && s[i] == x;
                    if i < idx {
                        assert(t[i] == x);
                    } else {
                        assert(t[i + 1] == x);
                    }
                }
                if x == b {
                    assert(t[idx as int] == x);
                }
            }
        }
    }

    /// Drops every backend at the given address.
    pub fn remove_addr(&mut self, addr: SocketAddress)
        requires
            old(self).well_formed(),
        ensures
            final(self).well_formed(),
            final(self)@ == old(self)@.filter(|x: Backend| x.addr != addr),
    {
        let ghost s = self@;
        let ghost pred = |x: Backend| x.addr != addr;
        let mut kept: Vec<Backend> = Vec::new();
        let mut i: usize = 0;
        while i < self.items.len()
            invariant
                i <= s.len(),
                self@ == s,
                pred == (|x: Backend| x.addr != addr),
                kept@ == s.subrange(0, i as int).filter(pred),
            decreases s.len() - i,
        {
            let keep = !(self.items[i].addr == addr);
            proof {
                reveal(Seq::filter);
                let prefix = s.subrange(0, i + 1);
                assert(prefix.drop_last() =~= s.subrange(0, i as int));
                assert(prefix.last() == s[i as int]);
            }
            if keep {
                kept.push(self.items[i]);
            }
            i += 1;
        }
        proof {
            assert(s.subrange(0, s.len() as int) =~= s);
            lemma_filter_elems(s, pred);
            lemma_filter_sorted(s, pred);
            assert forall|k: int| 0 <= k < s.filter(pred).len() implies #[trigger] s.filter(
                pred,
            )[k].weight >= 1 by {
                assert(s.contains(s.filter(pred)[k]));
                let j = choose|j: int| 0 <= j < s.len() && s[j] == s.filter(pred)[k];
                assert(s[j].weight >= 1);
            }
        }
        self.items = kept;
    }

    /// Decides `well_formed` executably: the order is checked between
    /// neighbours, which the transitivity of the order extends to the whole.
    pub fn check_well_formed(&self) -> (r: bool)
        ensures
            r == self.well_formed(),
    {
        let ghost s = self@;
        let mut i: usize = 0;
        while i < self.items.len()
            invariant
                i <= s.len(),
                self@ == s,
                forall|j: int| 0 <= j < i ==> #[trigger] s[j].weight >= 1,
                forall|j: int| 0 <= j && j + 1 < s.len() && j < i ==> backend_lt(#[trigger] s[j], s[j + 1]),
            decreases s.len() - i,
        {
            if self.items[i].weight < 1 {
                return false;
            }
            if i + 1 < self.items.len() {
                if !Self::lt_exec(&self.items[i], &self.items[i + 1]) {
                    proof {
                        assert(!backend_lt(s[i as int], s[i as int + 1]));
                    }
                    return false;
                }
            }
            i += 1;
        }
        proof {
            lemma_adjacent_sorted(s);
        }
        true
    }

    /// An element-for-element copy of the set.
    pub fn duplicate(&self) -> (r: BackendSet)
        ensures
            r@ == self@,
    {
        let mut items: Vec<Backend> = Vec::new();
        let mut i: usize = 0;
        while i < self.items.len()
            invariant
                i <= self@.len(),
                items@ == self@.subrange(0, i as int),
            decreases self@.len() - i,
        {
            items.push(self.items[i]);
            proof {
                assert(items@ =~= self@.subrange(0, i + 1));
            }
            i += 1;
        }
        proof {
            assert(self@.subrange(0, self@.len() as int) =~= self@);
        }
        BackendSet { items }
    }

    /// The set of the given addresses, each with weight 1.
    pub fn from_addrs(addrs: &Vec<SocketAddress>) -> (r: BackendSet)
        ensures
            r.well_formed(),
            forall|x: Backend|
                r@.contains(x) <==> (addrs@.contains(x.addr) && x.weight == 1),
    {
        let mut r = BackendSet::new();
        let mut i: usize = 0;
        while i < addrs.len()
            invariant
                i <= addrs@.len(),
                r.well_formed(),
                forall|x: Backend|
                    r@.contains(x) <==> (exists|j: int|
                        0 <= j < i && x == (Backend { addr: addrs@[j], weight: 1usize })),
            decreases addrs@.len() - i,
        {
            let b = Backend { addr: addrs[i], weight: 1 };
            r.insert(b);
            proof {
                assert forall|x: Backend|
                    r@.contains(x) <==> (exists|j: int|
                        0 <= j < i + 1 && x == (Backend { addr: addrs@[j], weight: 1usize })) by {
                    if x == b {
                        assert(0 <= i < i + 1 && x == (Backend {
                            addr: addrs@[i as int],
                            weight: 1usize,
                        }));
                    }
                }
            }
            i += 1;
        }
        proof {
            assert forall|x: Backend|
                r@.contains(x) <==> (addrs@.contains(x.addr) && x.weight == 1) by {
                if r@.contains(x) {
                    let j = choose|j: int|
                        0 <= j < addrs@.len() && x == (Backend {
                            addr: addrs@[j],
                            weight: 1usize,
                        });
                    assert(addrs@[j] == x.addr);
                }
                if addrs@.contains(x.addr) && x.weight == 1 {
                    let j = choose|j: int| 0 <= j < addrs@.len() && addrs@[j] == x.addr;
                    assert(x == (Backend { addr: addrs@[j], weight: 1usize }));
                }
            }
        }
        r
    }
}

/// A sequence ordered between neighbours is ordered throughout.
proof fn lemma_adjacent_sorted(s: Seq<Backend>)
    requires
        forall|j: int| 0 <= j && j + 1 < s.len() ==> backend_lt(#[trigger] s[j], s[j + 1]),
    ensures
        backends_sorted(s),
{
    assert forall|i: int, j: int| 0 <= i < j < s.len() implies backend_lt(s[i], s[j]) by {
        lemma_lt_span(s, i, j);
    }
}

proof fn lemma_lt_span(s: Seq<Backend>, i: int, j: int)
    requires
        forall|k: int| 0 <= k && k + 1 < s.len() ==> backend_lt(#[trigger] s[k], s[k + 1]),
        0 <= i < j < s.len(),
    ensures
        backend_lt(s[i], s[j]),
    decreases j - i,
{
    if i + 1 < j {
        lemma_lt_span(s, i + 1, j);
        lemma_backend_lt_transitive(s[i], s[i + 1], s[j]);
    }
}

/// Every element of a filtered sequence comes from the original.
proof fn lemma_filter_elems(s: Seq<Backend>, pred: spec_fn(Backend) -> bool)
    ensures
        forall|i: int| 0 <= i < s.filter(pred).len() ==> s.contains(#[trigger] s.filter(pred)[i]),
    decreases s.len(),
{
    reveal(Seq::filter);
    if s.len() > 0 {
        let d = s.drop_last();
        lemma_filter_elems(d, pred);
        assert forall|i: int| 0 <= i < s.filter(pred).len() implies s.contains(
            #[trigger] s.filter(pred)[i],
        ) by {
            if i < d.filter(pred).len() {
                assert(d.contains(d.filter(pred)[i]));
                let j = choose|j: int| 0 <= j < d.len() && d[j] == d.filter(pred)[i];
                assert(s[j] == d[j]);
            } else {
                assert(s.filter(pred)[i] == s.last());
            }
        }
    }
}

/// Filtering keeps the strict order.
proof fn lemma_filter_sorted(s: Seq<Backend>, pred: spec_fn(Backend) -> bool)
    requires
        backends_sorted(s),
    ensures
        backends_sorted(s.filter(pred)),
    decreases s.len(),
{
    reveal(Seq::filter);
    if s.len() > 0 {
        let d = s.drop_last();
        assert(backends_sorted(d)) by {
            assert forall|i: int, j: int| 0 <= i < j < d.len() implies backend_lt(d[i], d[j]) by {
                assert(d[i] == s[i] && d[j] == s[j]);
            }
        }
        lemma_filter_sorted(d, pred);
        lemma_filter_elems(d, pred);
        if pred(s.last()) {
            let f = s.filter(pred);
            assert forall|i: int, j: int| 0 <= i < j < f.len() implies backend_lt(f[i], f[j]) by {
                if j < f.len() - 1 {
                    assert(d.filter(pred)[i] == f[i] && d.filter(pred)[j] == f[j]);
                } else {
                    assert(f[j] == s.last());
                    assert(d.contains(d.filter(pred)[i]));
                    let k = choose|k: int| 0 <= k < d.len() && d[k] == d.filter(pred)[i];
                    assert(s[k] == d[k]);
                    assert(backend_lt(s[k], s[s.len() - 1]));
                }
            }
        }
    }
}

} // verus!
