//! Load-balancing selectors.
//!
//! Each selector draws one backend from a snapshot; an empty snapshot always
//! yields nothing. Round-robin and weighted round-robin hold a monotonic
//! counter; their fairness laws are stated and proved here.

use vstd::prelude::*;
use vstd::string::StringSliceAdditionalSpecFns;
use vstd::arithmetic::div_mod::{
    lemma_fundamental_div_mod, lemma_mod_division_less_than_divisor, lemma_small_mod,
};

use crate::addr::SocketAddress;
use crate::backend::{Backend, BackendSet};
use crate::hash::{fnv1a, fnv1a_hash, node_hash, node_hash_exec};

verus! {

/// The counter value after one selection: the increment wraps.
pub open spec fn wrap_inc(i: usize) -> usize {
    if i == usize::MAX {
        0usize
    } else {
        (i + 1) as usize
    }
}

/// All weights in the snapshot are positive, as the data model demands.
pub open spec fn weights_positive(s: Seq<Backend>) -> bool {
    forall|i: int| 0 <= i < s.len() ==> #[trigger] s[i].weight >= 1
}

/// The summed weight of the first `i` backends.
pub open spec fn prefix_weight(s: Seq<Backend>, i: int) -> int
    decreases i,
{
    if i <= 0 {
        0
    } else {
        prefix_weight(s, i - 1) + s[i - 1].weight
    }
}

/// The summed weight of the whole snapshot.
pub open spec fn total_weight(s: Seq<Backend>) -> int {
    prefix_weight(s, s.len() as int)
}

/// The first index at or after `i` whose weight span contains cursor `c`.
pub open spec fn wpick_from(s: Seq<Backend>, c: int, i: int) -> int
    decreases s.len() - i,
{
    if i < 0 || i >= s.len() {
        i
    } else if c < prefix_weight(s, i + 1) {
        i
    } else {
        wpick_from(s, c, i + 1)
    }
}

/// The backend index that weighted round-robin picks for cursor `c`.
pub open spec fn weighted_pick(s: Seq<Backend>, c: int) -> int {
    wpick_from(s, c, 0)
}

/// Growing the prefix grows its weight, by at least one per backend.
pub proof fn lemma_prefix_weight_monotone(s: Seq<Backend>, i: int, j: int)
    requires
        weights_positive(s),
        0 <= i <= j <= s.len(),
    ensures
        prefix_weight(s, i) + (j - i) <= prefix_weight(s, j),
    decreases j - i,
{
    if i < j {
        lemma_prefix_weight_monotone(s, i, j - 1);
    }
}

proof fn lemma_wpick_from_interval(s: Seq<Backend>, c: int, i: int)
    requires
        weights_positive(s),
        0 <= i <= s.len(),
        prefix_weight(s, i) <= c < total_weight(s),
    ensures
        i <= wpick_from(s, c, i) < s.len(),
        prefix_weight(s, wpick_from(s, c, i)) <= c < prefix_weight(s, wpick_from(s, c, i) + 1),
    decreases s.len() - i,
{
    if i == s.len() {
        assert(false);
    } else if c < prefix_weight(s, i + 1) {
    } else {
        lemma_wpick_from_interval(s, c, i + 1);
    }
}

proof fn lemma_wpick_from_unique(s: Seq<Backend>, c: int, i: int, t: int)
    requires
        weights_positive(s),
        0 <= i <= t < s.len(),
        prefix_weight(s, t) <= c < prefix_weight(s, t + 1),
    ensures
        wpick_from(s, c, i) == t,
    decreases t - i,
{
    if i == t {
    } else {
        lemma_prefix_weight_monotone(s, i + 1, t);
        lemma_wpick_from_unique(s, c, i + 1, t);
    }
}

/// The cursor `c` lands in a backend's weight span and nowhere else.
pub proof fn lemma_weighted_pick_in_range(s: Seq<Backend>, c: int)
    requires
        weights_positive(s),
        0 <= c < total_weight(s),
    ensures
        0 <= weighted_pick(s, c) < s.len(),
        prefix_weight(s, weighted_pick(s, c)) <= c < prefix_weight(s, weighted_pick(s, c) + 1),
{
    lemma_wpick_from_interval(s, c, 0);
}

/// Weighted round-robin is fair: over one full cycle of `total_weight(s)`
/// cursors, backend `t` is picked for exactly the `s[t].weight` cursors of
/// its own span, and for no other.
pub proof fn lemma_weighted_fairness(s: Seq<Backend>, t: int)
    requires
        weights_positive(s),
        0 <= t < s.len(),
    ensures
        forall|c: int|
            0 <= c < total_weight(s) ==> ((#[trigger] weighted_pick(s, c) == t) <==> (
            prefix_weight(s, t) <= c < prefix_weight(s, t + 1))),
        prefix_weight(s, t + 1) - prefix_weight(s, t) == s[t].weight,
{
    assert forall|c: int| 0 <= c < total_weight(s) implies ((#[trigger] weighted_pick(s, c) == t)
        <==> (prefix_weight(s, t) <= c < prefix_weight(s, t + 1))) by {
        if prefix_weight(s, t) <= c < prefix_weight(s, t + 1) {
            lemma_wpick_from_unique(s, c, 0, t);
        } else {
            lemma_wpick_from_interval(s, c, 0);
        }
    }
}

/// The selection step, counted from counter `c`, that reaches index `i`.
pub open spec fn rr_step_reaching(c: int, k: int, i: int) -> int {
    if i >= c % k {
        i - c % k
    } else {
        i - c % k + k
    }
}

/// Round-robin is a permutation: from any counter `c`, the `k` consecutive
/// selections over a snapshot of size `k` hit `k` pairwise distinct indices,
/// and every index `i` is hit, at step `rr_step_reaching(c, k, i)`. (A
/// counter that wraps its machine word inside the window is not covered: the
/// increment is wrapping.)
pub proof fn lemma_round_robin_coverage(c: int, k: int)
    requires
        0 <= c,
        0 < k,
    ensures
        forall|j1: int, j2: int|
            0 <= j1 < j2 < k ==> #[trigger] ((c + j1) % k) != #[trigger] ((c + j2) % k),
        forall|i: int|
            0 <= i < k ==> {
                &&& 0 <= #[trigger] rr_step_reaching(c, k, i) < k
                &&& (c + rr_step_reaching(c, k, i)) % k == i
            },
{
    assert forall|j1: int, j2: int| 0 <= j1 < j2 < k implies #[trigger] ((c + j1) % k)
        != #[trigger] ((c + j2) % k) by {
        if (c + j1) % k == (c + j2) % k {
            lemma_fundamental_div_mod(c + j1, k);
            lemma_fundamental_div_mod(c + j2, k);
            let q1 = (c + j1) / k;
            let q2 = (c + j2) / k;
            assert(k * (q2 - q1) == k * q2 - k * q1) by (nonlinear_arith);
            assert(j2 - j1 == k * (q2 - q1));
            assert(0 < k * (q2 - q1) < k);
            assert(false) by (nonlinear_arith)
                requires 0 < k * (q2 - q1) < k;
        }
    }
    assert forall|i: int| 0 <= i < k implies {
        &&& 0 <= #[trigger] rr_step_reaching(c, k, i) < k
        &&& (c + rr_step_reaching(c, k, i)) % k == i
    } by {
        lemma_mod_division_less_than_divisor(c, k);
        let r = c % k;
        lemma_fundamental_div_mod(c, k);
        let j = rr_step_reaching(c, k, i);
        assert(0 <= j < k);
        if i >= r {
            assert(c + j == k * (c / k) + i);
            assert((k * (c / k) + i) % k == i) by {
                lemma_mod_multiples_vanish_local(c / k, i, k);
                lemma_small_mod(i as nat, k as nat);
            }
        } else {
            assert(k * (c / k + 1) == k * (c / k) + k) by (nonlinear_arith);
            assert(c + j == k * (c / k + 1) + i);
            assert((k * (c / k + 1) + i) % k == i) by {
                lemma_mod_multiples_vanish_local(c / k + 1, i, k);
                lemma_small_mod(i as nat, k as nat);
            }
        }
        assert((c + j) % k == i);
    }
}

proof fn lemma_mod_multiples_vanish_local(a: int, b: int, m: int)
    requires
        0 < m,
    ensures
        (m * a + b) % m == b % m,
{
    vstd::arithmetic::div_mod::lemma_mod_multiples_vanish(a, b, m);
}

/// Plain round-robin: a wrapping counter, reduced modulo the snapshot size.
pub struct RoundRobin {
    pub index: usize,
}

impl Default for RoundRobin {
    fn default() -> (r: Self)
        ensures
            r.index == 0,
    {
        RoundRobin { index: 0 }
    }
}

impl RoundRobin {
    /// Picks the backend at the counter, modulo the snapshot size, and
    /// advances the counter. An empty snapshot yields nothing.
    pub fn select(&mut self, backends: &BackendSet) -> (r: Option<Backend>)
        ensures
            backends@.len() == 0 ==> r is None && *final(self) == *old(self),
            backends@.len() > 0 ==> {
                &&& r == Some(backends@[(old(self).index as int) % (backends@.len() as int)])
                &&& final(self).index == wrap_inc(old(self).index)
            },
    {
        let len = backends.len();
        if len == 0 {
            return None;
        }
        let i = self.index % len;
        self.index = if self.index == usize::MAX {
            0
        } else {
            self.index + 1
        };
        Some(*backends.get(i))
    }
}

/// Weighted round-robin: the counter walks the weight spans, so each backend
/// is picked in proportion to its weight.
pub struct WeightedRoundRobin {
    pub index: usize,
}

impl Default for WeightedRoundRobin {
    fn default() -> (r: Self)
        ensures
            r.index == 0,
    {
        WeightedRoundRobin { index: 0 }
    }
}

impl WeightedRoundRobin {
    /// Picks the backend whose weight span contains the counter, modulo the
    /// summed weight, and advances the counter.
    pub fn select(&mut self, backends: &BackendSet) -> (r: Option<Backend>)
        requires
            backends.well_formed(),
        ensures
            backends@.len() == 0 ==> r is None && *final(self) == *old(self),
            backends@.len() > 0 ==> {
                &&& r == Some(
                    backends@[weighted_pick(
                        backends@,
                        (old(self).index as int) % total_weight(backends@),
                    )],
                )
                &&& final(self).index == wrap_inc(old(self).index)
            },
    {
        let ghost s = backends@;
        let len = backends.len();
        if len == 0 {
            return None;
        }
        // Sum the weights; a u128 cannot overflow on machine-sized weights.
        let mut total: u128 = 0;
        let mut i: usize = 0;
        while i < len
            invariant
                i <= len,
                len == s.len(),
                backends@ == s,
                backends.well_formed(),
                total == prefix_weight(s, i as int),
                total <= (i as int) * 0xffff_ffff_ffff_ffff,
            decreases len - i,
        {
            let w = backends.get(i).weight;
            proof {
                assert(w as int <= 0xffff_ffff_ffff_ffff);
                assert((i as int) <= 0xffff_ffff_ffff_ffff);
                assert(total + w <= ((i + 1) as int) * 0xffff_ffff_ffff_ffff
                    <= 0xffff_ffff_ffff_ffff * 0x1_0000_0000_0000_0000) by (nonlinear_arith)
                    requires
                        total <= (i as int) * 0xffff_ffff_ffff_ffff,
                        w as int <= 0xffff_ffff_ffff_ffff,
                        0 <= i as int <= 0xffff_ffff_ffff_ffff;
            }
            total = total + (w as u128);
            i += 1;
        }
        proof {
            lemma_prefix_weight_monotone(s, 0, s.len() as int);
        }
        let cursor: u128 = (self.index as u128) % total;
        proof {
            lemma_mod_division_less_than_divisor(self.index as int, total as int);
        }
        let ghost c = cursor as int;
        let mut rem: u128 = cursor;
        let mut t: usize = 0;
        while t < len - 1 && (backends.get(t).weight as u128) <= rem
            invariant
                0 <= t < len,
                len == s.len(),
                backends@ == s,
                backends.well_formed(),
                0 <= c < total_weight(s),
                prefix_weight(s, t as int) <= c,
                rem == c - prefix_weight(s, t as int),
                wpick_from(s, c, 0) == wpick_from(s, c, t as int),
            decreases len - t,
        {
            proof {
                assert(wpick_from(s, c, t as int) == wpick_from(s, c, t as int + 1));
            }
            rem = rem - (backends.get(t).weight as u128);
            t += 1;
        }
        proof {
            // Either the cursor fell inside this span, or this is the last
            // backend and the cursor lies below the total.
            assert(c < prefix_weight(s, t as int + 1));
            assert(wpick_from(s, c, t as int) == t as int);
        }
        let picked = *backends.get(t);
        self.index = if self.index == usize::MAX {
            0
        } else {
            self.index + 1
        };
        Some(picked)
    }
}

/// The first index of a minimal score: ties go to the earlier entry.
pub open spec fn first_argmin(scores: Seq<int>) -> int
    decreases scores.len(),
{
    if scores.len() <= 1 {
        0
    } else {
        let rest = first_argmin(scores.drop_last());
        if scores.last() < scores[rest] {
            scores.len() - 1
        } else {
            rest
        }
    }
}

/// `first_argmin` names a minimal score, and no earlier score ties it.
pub proof fn lemma_first_argmin(scores: Seq<int>)
    requires
        scores.len() > 0,
    ensures
        0 <= first_argmin(scores) < scores.len(),
        forall|j: int| 0 <= j < scores.len() ==> scores[first_argmin(scores)] <= #[trigger] scores[j],
        forall|j: int| 0 <= j < first_argmin(scores) ==> #[trigger] scores[j] > scores[
            first_argmin(scores)
        ],
    decreases scores.len(),
{
    if scores.len() > 1 {
        let d = scores.drop_last();
        lemma_first_argmin(d);
        assert(forall|j: int| 0 <= j < d.len() ==> d[j] == scores[j]);
    }
}

/// In-flight connection counts, one per backend address.
pub struct LeastConnections {
    counts: Vec<(SocketAddress, u64)>,
}

impl View for LeastConnections {
    type V = Seq<(SocketAddress, u64)>;

    closed spec fn view(&self) -> Seq<(SocketAddress, u64)> {
        self.counts@
    }
}

/// The count recorded for an address: its first entry, or zero if absent.
pub open spec fn count_of(s: Seq<(SocketAddress, u64)>, a: SocketAddress) -> int
    decreases s.len(),
{
    if s.len() == 0 {
        0
    } else if s[0].0 == a {
        s[0].1 as int
    } else {
        count_of(s.subrange(1, s.len() as int), a)
    }
}

/// A count after one more connection: the increment saturates.
pub open spec fn sat_inc(c: int) -> int {
    if c >= u64::MAX {
        c
    } else {
        c + 1
    }
}

/// A count after one connection ends: never below zero.
pub open spec fn sat_dec(c: int) -> int {
    if c > 0 {
        c - 1
    } else {
        0
    }
}

proof fn lemma_count_of_index(s: Seq<(SocketAddress, u64)>, a: SocketAddress, i: int)
    requires
        0 <= i < s.len(),
        s[i].0 == a,
        forall|j: int| 0 <= j < i ==> s[j].0 != a,
    ensures
        count_of(s, a) == s[i].1,
    decreases i,
{
    if i > 0 {
        let tail = s.subrange(1, s.len() as int);
        lemma_count_of_index(tail, a, i - 1);
    }
}

proof fn lemma_count_of_absent(s: Seq<(SocketAddress, u64)>, a: SocketAddress)
    requires
        forall|j: int| 0 <= j < s.len() ==> s[j].0 != a,
    ensures
        count_of(s, a) == 0,
    decreases s.len(),
{
    if s.len() > 0 {
        let tail = s.subrange(1, s.len() as int);
        lemma_count_of_absent(tail, a);
    }
}

proof fn lemma_count_of_update_other(
    s: Seq<(SocketAddress, u64)>,
    i: int,
    v: (SocketAddress, u64),
    x: SocketAddress,
)
    requires
        0 <= i < s.len(),
        s[i].0 != x,
        v.0 != x,
    ensures
        count_of(s.update(i, v), x) == count_of(s, x),
    decreases s.len(),
{
    let t = s.update(i, v);
    if i == 0 {
        assert(t.subrange(1, t.len() as int) =~= s.subrange(1, s.len() as int));
    } else {
        assert(t.subrange(1, t.len() as int) =~= s.subrange(1, s.len() as int).update(i - 1, v));
        lemma_count_of_update_other(s.subrange(1, s.len() as int), i - 1, v, x);
    }
}

proof fn lemma_count_of_push(s: Seq<(SocketAddress, u64)>, v: (SocketAddress, u64), x: SocketAddress)
    requires
        x != v.0 || forall|j: int| 0 <= j < s.len() ==> s[j].0 != v.0,
    ensures
        count_of(s.push(v), x) == if x == v.0 {
            v.1 as int
        } else {
            count_of(s, x)
        },
    decreases s.len(),
{
    let t = s.push(v);
    if s.len() == 0 {
        assert(t[0] == v);
        assert(t.subrange(1, t.len() as int) =~= Seq::<(SocketAddress, u64)>::empty());
        if x == v.0 {
            assert(count_of(t, x) == v.1 as int);
        } else {
            assert(count_of(t, x) == count_of(t.subrange(1, t.len() as int), x));
            assert(count_of(t, x) == 0);
            assert(count_of(s, x) == 0);
        }
    } else {
        let st = s.subrange(1, s.len() as int);
        assert(t[0] == s[0]);
        assert(t.subrange(1, t.len() as int) =~= st.push(v));
        if x == v.0 {
            assert forall|j: int| 0 <= j < st.len() implies st[j].0 != v.0 by {
                assert(st[j] == s[j + 1]);
            }
        }
        lemma_count_of_push(st, v, x);
    }
}

impl Default for LeastConnections {
    fn default() -> (r: Self)
        ensures
            r@ == Seq::<(SocketAddress, u64)>::empty(),
            r.well_formed(),
    {
        let r = LeastConnections { counts: Vec::new() };
        proof {
            assert(r@ =~= Seq::<(SocketAddress, u64)>::empty());
        }
        r
    }
}

impl LeastConnections {
    /// Each address appears at most once.
    pub open spec fn well_formed(&self) -> bool {
        forall|i: int, j: int| 0 <= i < j < self@.len() ==> self@[i].0 != self@[j].0
    }

    /// Decides `well_formed` executably.
    pub fn check_well_formed(&self) -> (r: bool)
        ensures
            r == self.well_formed(),
    {
        let ghost s = self@;
        let mut i: usize = 0;
        while i < self.counts.len()
            invariant
                i <= s.len(),
                self@ == s,
                forall|a: int, b: int| 0 <= a < b < s.len() && a < i ==> s[a].0 != s[b].0,
            decreases s.len() - i,
        {
            let mut j: usize = i + 1;
            while j < self.counts.len()
                invariant
                    i < j <= s.len(),
                    self@ == s,
                    forall|b: int| i < b < j ==> s[i as int].0 != s[b].0,
                decreases s.len() - j,
            {
                if self.counts[i].0 == self.counts[j].0 {
                    proof {
                        assert(s[i as int].0 == s[j as int].0);
                    }
                    return false;
                }
                j += 1;
            }
            i += 1;
        }
        true
    }

    /// Looks the address's in-flight count up; an unseen address counts zero.
    pub fn count(&self, addr: &SocketAddress) -> (r: u64)
        ensures
            r as int == count_of(self@, *addr),
    {
        let ghost s = self@;
        let mut i: usize = 0;
        while i < self.counts.len() && !(self.counts[i].0 == *addr)
            invariant
                i <= s.len(),
                self@ == s,
                forall|j: int| 0 <= j < i ==> s[j].0 != *addr,
            decreases s.len() - i,
        {
            i += 1;
        }
        if i < self.counts.len() {
            proof {
                lemma_count_of_index(s, *addr, i as int);
            }
            self.counts[i].1
        } else {
            proof {
                lemma_count_of_absent(s, *addr);
            }
            0
        }
    }

    /// Records one more in-flight connection to the address.
    pub fn increment(&mut self, addr: &SocketAddress)
        requires
            old(self).well_formed(),
        ensures
            final(self).well_formed(),
            count_of(final(self)@, *addr) == sat_inc(count_of(old(self)@, *addr)),
            forall|x: SocketAddress|
                x != *addr ==> count_of(final(self)@, x) == count_of(old(self)@, x),
    {
        let ghost s = self@;
        let mut i: usize = 0;
        while i < self.counts.len() && !(self.counts[i].0 == *addr)
            invariant
                i <= s.len(),
                self@ == s,
                self.well_formed(),
                forall|j: int| 0 <= j < i ==> s[j].0 != *addr,
            decreases s.len() - i,
        {
            i += 1;
        }
        if i < self.counts.len() {
            let c = self.counts[i].1;
            let nc = if c == u64::MAX {
                c
            } else {
                c + 1
            };
            proof {
                lemma_count_of_index(s, *addr, i as int);
            }
            self.counts.set(i, (*addr, nc));
            proof {
                let t = s.update(i as int, (*addr, nc));
                lemma_count_of_index(t, *addr, i as int);
                assert forall|x: SocketAddress| x != *addr implies count_of(t, x) == count_of(
                    s,
                    x,
                ) by {
                    lemma_count_of_update_other(s, i as int, (*addr, nc), x);
                }
            }
        } else {
            proof {
                lemma_count_of_absent(s, *addr);
            }
            self.counts.push((*addr, 1));
            proof {
                let t = s.push((*addr, 1u64));
                assert forall|x: SocketAddress| count_of(t, x) == if x == *addr {
                    1int
                } else {
                    count_of(s, x)
                } by {
                    lemma_count_of_push(s, (*addr, 1u64), x);
                }
            }
        }
    }

    /// Records that one connection to the address ended; the count never
    /// goes below zero, and an unseen address stays at zero.
    pub fn decrement(&mut self, addr: &SocketAddress)
        requires
            old(self).well_formed(),
        ensures
            final(self).well_formed(),
            count_of(final(self)@, *addr) == sat_dec(count_of(old(self)@, *addr)),
            forall|x: SocketAddress|
                x != *addr ==> count_of(final(self)@, x) == count_of(old(self)@, x),
    {
        let ghost s = self@;
        let mut i: usize = 0;
        while i < self.counts.len() && !(self.counts[i].0 == *addr)
            invariant
                i <= s.len(),
                self@ == s,
                self.well_formed(),
                forall|j: int| 0 <= j < i ==> s[j].0 != *addr,
            decreases s.len() - i,
        {
            i += 1;
        }
        if i < self.counts.len() {
            let c = self.counts[i].1;
            let nc = if c > 0 {
                c - 1
            } else {
                0
            };
            proof {
                lemma_count_of_index(s, *addr, i as int);
            }
            self.counts.set(i, (*addr, nc));
            proof {
                let t = s.update(i as int, (*addr, nc));
                lemma_count_of_index(t, *addr, i as int);
                assert forall|x: SocketAddress| x != *addr implies count_of(t, x) == count_of(
                    s,
                    x,
                ) by {
                    lemma_count_of_update_other(s, i as int, (*addr, nc), x);
                }
            }
        } else {
            proof {
                lemma_count_of_absent(s, *addr);
            }
        }
    }

    /// The per-backend scores the selector minimizes: the in-flight counts.
    pub open spec fn scores(s: Seq<Backend>, counts: Seq<(SocketAddress, u64)>) -> Seq<int> {
        Seq::new(s.len(), |i: int| count_of(counts, s[i].addr))
    }

    /// Picks the backend with the fewest in-flight connections; ties go to
    /// the earliest backend in the snapshot order.
    pub fn select(&self, backends: &BackendSet) -> (r: Option<Backend>)
        ensures
            backends@.len() == 0 ==> r is None,
            backends@.len() > 0 ==> r == Some(
                backends@[first_argmin(Self::scores(backends@, self@))],
            ),
    {
        let ghost s = backends@;
        let ghost sc = Self::scores(s, self@);
        let len = backends.len();
        if len == 0 {
            return None;
        }
        let mut best_i: usize = 0;
        let mut best: u64 = self.count(&backends.get(0).addr);
        let mut i: usize = 1;
        while i < len
            invariant
                1 <= i <= len,
                len == s.len(),
                backends@ == s,
                sc == Self::scores(s, self@),
                0 <= best_i < i,
                best as int == sc[best_i as int],
                best_i as int == first_argmin(sc.subrange(0, i as int)),
            decreases len - i,
        {
            let c = self.count(&backends.get(i).addr);
            proof {
                let prefix = sc.subrange(0, i + 1);
                assert(prefix.drop_last() =~= sc.subrange(0, i as int));
                assert(prefix.last() == sc[i as int]);
            }
            if c < best {
                best_i = i;
                best = c;
            }
            i += 1;
        }
        proof {
            assert(sc.subrange(0, sc.len() as int) =~= sc);
        }
        Some(*backends.get(best_i))
    }
}

/// Relies on `rand::Rng::gen_range` over `0..n`: the sample lies within the
/// (non-empty) range.
#[verifier::external_body]
fn random_below(n: usize) -> (r: usize)
    requires
        n >= 1,
    ensures
        r < n,
{
    rand::Rng::gen_range(&mut rand::thread_rng(), 0..n)
}

/// A uniform draw over the snapshot.
pub struct Random;

impl Default for Random {
    fn default() -> (r: Self) {
        Random
    }
}

impl Random {
    /// Picks some backend of the snapshot; which one is up to the generator.
    pub fn select(&self, backends: &BackendSet) -> (r: Option<Backend>)
        ensures
            backends@.len() == 0 ==> r is None,
            backends@.len() > 0 ==> (r matches Some(b) && backends@.contains(b)),
    {
        let len = backends.len();
        if len == 0 {
            return None;
        }
        let i = random_below(len);
        let picked = *backends.get(i);
        proof {
            assert(backends@[i as int] == picked);
        }
        Some(picked)
    }
}

/// Consistent, key-addressed selection over a virtual ring.
pub struct ConsistentHashing {
    pub virtual_nodes: usize,
}

/// The least XOR distance from the key's ring position to any of the
/// backend's first `vn` virtual nodes.
pub open spec fn backend_distance(b: Backend, vn: int, kh: u64) -> int
    decreases vn,
{
    if vn <= 1 {
        (node_hash(b, 0) ^ kh) as int
    } else {
        vstd::math::min(
            backend_distance(b, vn - 1, kh),
            (node_hash(b, (vn - 1) as u64) ^ kh) as int,
        )
    }
}

/// The per-backend scores consistent hashing minimizes.
pub open spec fn ch_scores(s: Seq<Backend>, vn: int, kh: u64) -> Seq<int> {
    Seq::new(s.len(), |i: int| backend_distance(s[i], vn, kh))
}

/// The ring position of a routing key: the hash of its bytes.
pub open spec fn fnv_key_of(k: &str) -> u64 {
    fnv1a(k.spec_bytes())
}

impl ConsistentHashing {
    pub fn new(virtual_nodes: usize) -> (r: Self)
        ensures
            r.virtual_nodes == virtual_nodes,
    {
        ConsistentHashing { virtual_nodes }
    }

    /// The ring hash of arbitrary bytes.
    pub fn hash(data: &[u8]) -> (r: u64)
        ensures
            r == fnv1a(data@),
    {
        fnv1a_hash(data)
    }

    fn distance(b: &Backend, vn: usize, kh: u64) -> (r: u64)
        requires
            vn >= 1,
        ensures
            r as int == backend_distance(*b, vn as int, kh),
    {
        let mut d: u64 = node_hash_exec(b, 0) ^ kh;
        let mut v: usize = 1;
        while v < vn
            invariant
                1 <= v <= vn,
                d as int == backend_distance(*b, v as int, kh),
            decreases vn - v,
        {
            let nd = node_hash_exec(b, v as u64) ^ kh;
            if nd < d {
                d = nd;
            }
            v += 1;
        }
        d
    }

    /// Routes the key to the backend whose virtual node is nearest to the
    /// key's ring position by XOR distance; ties go to the earliest backend.
    /// Without a key there is nothing to route by, and nothing is picked.
    pub fn select(&self, backends: &BackendSet, key: Option<&str>) -> (r: Option<Backend>)
        ensures
            (backends@.len() == 0 || key is None || self.virtual_nodes == 0) ==> r is None,
            key matches Some(k) ==> (backends@.len() > 0 && self.virtual_nodes > 0 ==> r == Some(
                backends@[first_argmin(
                    ch_scores(backends@, self.virtual_nodes as int, fnv_key_of(k)),
                )],
            )),
    {
        let ghost s = backends@;
        let len = backends.len();
        let k = match key {
            Some(k) => k,
            None => {
                return None;
            }
        };
        if len == 0 || self.virtual_nodes == 0 {
            return None;
        }
        let kh = fnv1a_hash(k.as_bytes());
        let ghost sc = ch_scores(s, self.virtual_nodes as int, kh);
        let mut best_i: usize = 0;
        let mut best: u64 = Self::distance(backends.get(0), self.virtual_nodes, kh);
        let mut i: usize = 1;
        while i < len
            invariant
                1 <= i <= len,
                len == s.len(),
                backends@ == s,
                self.virtual_nodes >= 1,
                sc == ch_scores(s, self.virtual_nodes as int, kh),
                0 <= best_i < i,
                best as int == sc[best_i as int],
                best_i as int == first_argmin(sc.subrange(0, i as int)),
            decreases len - i,
        {
            let c = Self::distance(backends.get(i), self.virtual_nodes, kh);
            proof {
                let prefix = sc.subrange(0, i + 1);
                assert(prefix.drop_last() =~= sc.subrange(0, i as int));
                assert(prefix.last() == sc[i as int]);
            }
            if c < best {
                best_i = i;
                best = c;
            }
            i += 1;
        }
        proof {
            assert(sc.subrange(0, sc.len() as int) =~= sc);
        }
        Some(*backends.get(best_i))
    }
}

} // verus!
