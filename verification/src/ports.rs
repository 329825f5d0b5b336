//! The one piece of state shared across connections: the pool of
//! server-side port pairs, and the generator of session identifiers.
//! Callers that serve connections concurrently guard each behind a mutual
//! exclusion lock; every operation here is verified against the free-list
//! model, so serialized calls can never double-allocate a pair or reissue
//! an identifier.

use vstd::prelude::*;

verus! {

/// The pool of allocatable server-side port pairs. Pair `k` stands for
/// the two consecutive ports `base + 2k` (RTP) and `base + 2k + 1` (RTCP).
/// A pair is either on the free list or allocated to one live session.
pub struct PortAllocator {
    base: u16,
    pairs: u16,
    free: Vec<u16>,
}

impl PortAllocator {
    /// The free list holds distinct pair indices below `pairs`, and the
    /// whole port range fits in the port-number space.
    pub closed spec fn wf(self) -> bool {
        &&& self.base as int + 2 * (self.pairs as int) <= 65536
        &&& forall|i: int| 0 <= i < self.free@.len() ==> self.free@[i] < self.pairs
        &&& forall|i: int, j: int|
            0 <= i < j < self.free@.len() ==> self.free@[i] != self.free@[j]
    }

    /// First port of the range.
    pub closed spec fn base_port(self) -> u16 {
        self.base
    }

    /// Number of pair slots in the range.
    pub closed spec fn num_pairs(self) -> u16 {
        self.pairs
    }

    /// The free-list model: the pair indices available for allocation,
    /// in allocation order (the last is allocated next).
    pub closed spec fn free_list(self) -> Seq<u16> {
        self.free@
    }

    /// Pair `k` is available.
    pub open spec fn is_free(self, k: u16) -> bool {
        self.free_list().contains(k)
    }

    /// Pair `k` is currently allocated to some live session.
    pub open spec fn is_allocated(self, k: u16) -> bool {
        k < self.num_pairs() && !self.is_free(k)
    }

    /// The RTP (data) port of pair `k`.
    pub open spec fn rtp_port(self, k: u16) -> int {
        self.base_port() + 2 * k
    }

    /// The RTCP (control) port of pair `k`.
    pub open spec fn rtcp_port(self, k: u16) -> int {
        self.base_port() + 2 * k + 1
    }

    /// A pool covering `pairs` port pairs starting at `base`, all free.
    /// Pairs are handed out lowest ports first.
    pub fn new(base: u16, pairs: u16) -> (r: PortAllocator)
        requires
            base as int + 2 * (pairs as int) <= 65536,
        ensures
            r.wf(),
            r.base_port() == base,
            r.num_pairs() == pairs,
            r.free_list().len() == pairs,
            forall|i: int| 0 <= i < pairs ==> r.free_list()[i] == pairs - 1 - i,
            forall|k: u16| k < pairs ==> r.is_free(k),
    {
        let mut free: Vec<u16> = Vec::new();
        let mut k: u16 = pairs;
        while k > 0
            invariant
                k <= pairs,
                free@.len() == pairs - k,
                forall|i: int| 0 <= i < free@.len() ==> free@[i] == pairs - 1 - i,
            decreases k,
        {
            free.push(k - 1);
            k -= 1;
        }
        let r = PortAllocator { base, pairs, free };
        proof {
            assert forall|k2: u16| k2 < pairs implies r.is_free(k2) by {
                assert(r.free@[pairs - 1 - k2 as int] == k2);
            }
        }
        r
    }

    /// Takes the next free pair off the free list and returns its index
    /// and two port numbers; `None` exactly when the pool is exhausted.
    /// The returned pair was free before the call and is allocated after
    /// it, and no other pair changes state.
    pub fn allocate(&mut self) -> (r: Option<(u16, u16, u16)>)
        requires
            old(self).wf(),
        ensures
            final(self).wf(),
            final(self).base_port() == old(self).base_port(),
            final(self).num_pairs() == old(self).num_pairs(),
            r is Some <==> old(self).free_list().len() > 0,
            r is None ==> final(self).free_list() == old(self).free_list(),
            r is Some ==> {
                let k = old(self).free_list().last();
                &&& r == Some(
                    (k, old(self).rtp_port(k) as u16, old(self).rtcp_port(k) as u16),
                )
                &&& old(self).is_free(k)
                &&& final(self).is_allocated(k)
                &&& final(self).free_list() == old(self).free_list().drop_last()
            },
    {
        match self.free.pop() {
            Some(k) => {
                proof {
                    let ghost fl = old(self).free_list();
                    assert(fl.last() == k);
                    assert(fl[fl.len() - 1] == k);
                    assert(fl.contains(k));
                    assert(k < self.pairs);
                    if self.free@.contains(k) {
                        let i = choose|i: int| 0 <= i < self.free@.len() && self.free@[i] == k;
                        assert(fl[i] == fl[fl.len() - 1]);
                        assert(false);
                    }
                }
                let rtp = self.base + 2 * k;
                let rtcp = rtp + 1;
                Some((k, rtp, rtcp))
            }
            None => None,
        }
    }

    /// Every pair of the range maps to ports inside the port-number
    /// space.
    pub proof fn lemma_ports_in_range(self, k: u16)
        requires
            self.wf(),
            k < self.num_pairs(),
        ensures
            self.base_port() + 2 * k + 1 < 65536,
    {
    }

    /// Returns pair `k` to the free list. A pair that is out of range or
    /// already free is left alone, so a release can never forge a free
    /// entry.
    pub fn release(&mut self, k: u16)
        requires
            old(self).wf(),
        ensures
            final(self).wf(),
            final(self).base_port() == old(self).base_port(),
            final(self).num_pairs() == old(self).num_pairs(),
            old(self).is_allocated(k) ==> final(self).free_list() == old(
                self,
            ).free_list().push(k),
            !old(self).is_allocated(k) ==> final(self).free_list() == old(self).free_list(),
    {
        if k >= self.pairs {
            return ;
        }
        let mut i: usize = 0;
        let n = self.free.len();
        while i < n
            invariant
                old(self).wf(),
                n == self.free@.len(),
                0 <= i <= n,
                forall|j: int| 0 <= j < i ==> self.free@[j] != k,
                *self == *old(self),
            decreases n - i,
        {
            if self.free[i] == k {
                return ;
            }
            i += 1;
        }
        proof {
            if self.free@.contains(k) {
                let j = choose|j: int| 0 <= j < self.free@.len() && self.free@[j] == k;
                assert(self.free@[j] != k);
            }
        }
        self.free.push(k);
    }
}

/// A free pair index names a slot of the range.
pub proof fn lemma_free_in_range(a: PortAllocator, k: u16)
    requires
        a.wf(),
        a.is_free(k),
    ensures
        k < a.num_pairs(),
{
    let i = choose|i: int| 0 <= i < a.free_list().len() && a.free_list()[i] == k;
}

/// Port pairs with distinct indices never overlap: neither port of one is
/// a port of the other. Together with `allocate`'s contract — the returned
/// pair was free, while every live session holds an allocated pair — this
/// gives the disjointness of concurrently negotiated transports once the
/// pool is driven under mutual exclusion.
pub proof fn lemma_distinct_pairs_disjoint(a: PortAllocator, k1: u16, k2: u16)
    requires
        a.wf(),
        k1 < a.num_pairs(),
        k2 < a.num_pairs(),
        k1 != k2,
    ensures
        a.rtp_port(k1) != a.rtp_port(k2),
        a.rtp_port(k1) != a.rtcp_port(k2),
        a.rtcp_port(k1) != a.rtp_port(k2),
        a.rtcp_port(k1) != a.rtcp_port(k2),
{
}

/// An allocation never returns a pair some live session already holds:
/// the next pair to be allocated is on the free list, an allocated pair
/// is not.
pub proof fn lemma_allocation_fresh(a: PortAllocator, k: u16)
    requires
        a.wf(),
        a.is_allocated(k),
        a.free_list().len() > 0,
    ensures
        a.free_list().last() != k,
        a.rtp_port(a.free_list().last()) != a.rtp_port(k),
        a.rtcp_port(a.free_list().last()) != a.rtcp_port(k),
{
    let k2 = a.free_list().last();
    assert(a.free_list().contains(k2));
    assert(a.is_free(k2));
    lemma_distinct_pairs_disjoint(a, k, k2);
}

/// After a pair is released, the very next allocation hands out exactly
/// that pair again: releasing pushes the pair onto the free list, and
/// allocation pops from it.
pub proof fn lemma_release_then_allocate(a: PortAllocator, k: u16)
    requires
        a.wf(),
        a.is_allocated(k),
    ensures
        a.free_list().push(k).len() > 0,
        a.free_list().push(k).last() == k,
{
}

/// The generator of session identifiers: a monotonic counter, shared by
/// all connections and driven under the same mutual exclusion as the port
/// pool. An identifier below `next` has been issued; `fresh` never
/// returns one of those again.
pub struct SessionIdGen {
    next: u64,
}

impl SessionIdGen {
    /// Identifier `id` has already been handed out.
    pub open spec fn issued(self, id: u64) -> bool {
        id < self.next_id()
    }

    /// The identifier the next call to `fresh` returns.
    pub closed spec fn next_id(self) -> u64 {
        self.next
    }

    /// A generator that has issued nothing.
    pub fn new() -> (r: SessionIdGen)
        ensures
            r.next_id() == 1,
            forall|id: u64| !r.issued(id) || id == 0,
    {
        SessionIdGen { next: 1 }
    }

    /// The counter has reached its last value and may issue nothing
    /// more.
    pub fn is_exhausted(&self) -> (b: bool)
        ensures
            b == (self.next_id() == u64::MAX),
    {
        self.next == u64::MAX
    }

    /// The next identifier: never one issued before, and never issued
    /// twice.
    pub fn fresh(&mut self) -> (id: u64)
        requires
            old(self).next_id() < u64::MAX,
        ensures
            id == old(self).next_id(),
            !old(self).issued(id),
            final(self).issued(id),
            final(self).next_id() == old(self).next_id() + 1,
            forall|i: u64| old(self).issued(i) ==> final(self).issued(i),
    {
        let id = self.next;
        self.next = self.next + 1;
        id
    }
}

/// Identifiers issued by successive calls of `fresh` are distinct: each
/// call returns the counter's value and leaves the counter strictly
/// larger, so a later call can never repeat an earlier identifier.
pub proof fn lemma_fresh_ids_distinct(g1: SessionIdGen, g2: SessionIdGen, id1: u64, id2: u64)
    requires
        id1 == g1.next_id(),
        g2.next_id() > g1.next_id(),
        id2 == g2.next_id(),
    ensures
        id1 != id2,
{
}

} // verus!
