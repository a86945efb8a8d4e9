use vstd::prelude::*;

verus! {

/// First port handed to a worker.
pub const PORT_BASE: u16 = 9000;

/// Ports at or above this bound are never handed out.
pub const PORT_LIMIT: u16 = 19000;

/// What the caller does next while looking for a free port.
pub enum PortStep {
    /// Try to bind this port; report success with `grant`.
    Probe(u16),
    /// Every port of the range was examined in this pass without success.
    Exhausted,
}

/// Hands out ports of `[base, limit)` to workers. A cursor walks the range
/// monotonically and wraps back to `base`; ports that are leased to a live
/// worker are skipped without probing.
pub struct PortAllocator {
    base: u16,
    limit: u16,
    cursor: u16,
    pass_left: u16,
    leased: Vec<u16>,
}

impl PortAllocator {
    pub closed spec fn base(&self) -> u16 {
        self.base
    }

    pub closed spec fn limit(&self) -> u16 {
        self.limit
    }

    pub closed spec fn cursor(&self) -> u16 {
        self.cursor
    }

    /// Candidates left to examine in the current pass.
    pub closed spec fn pass_left(&self) -> nat {
        self.pass_left as nat
    }

    /// The ports currently leased.
    pub closed spec fn leases(&self) -> Set<u16> {
        self.leased@.to_set()
    }

    pub closed spec fn wf(&self) -> bool {
        &&& self.base < self.limit
        &&& self.base <= self.cursor < self.limit
        &&& self.pass_left <= self.limit - self.base
        &&& self.leased@.no_duplicates()
        &&& forall|i: int| 0 <= i < self.leased@.len() ==> self.base <= #[trigger] self.leased@[i] < self.limit
    }

    /// The candidate that follows `p`: one up, or back to `base` past the end.
    pub open spec fn after(&self, p: u16) -> u16 {
        if p + 1 >= self.limit() { self.base() } else { (p + 1) as u16 }
    }

    /// The candidate `k` steps past the cursor.
    pub open spec fn candidate(&self, k: nat) -> u16
        decreases k,
    {
        if k == 0 { self.cursor() } else { self.after(self.candidate((k - 1) as nat)) }
    }

    /// Every candidate lies in the range.
    pub proof fn lemma_candidate_in_range(&self, k: nat)
        requires
            self.wf(),
        ensures
            self.base() <= self.candidate(k) < self.limit(),
        decreases k,
    {
        if k > 0 {
            self.lemma_candidate_in_range((k - 1) as nat);
        }
    }

    /// The candidate `k` steps past the cursor, in closed form: the range
    /// is walked as a ring.
    pub proof fn lemma_candidate_offset(&self, k: nat)
        requires
            self.wf(),
        ensures
            self.candidate(k) as int == self.base() + (self.cursor() - self.base() + k) % (self.limit() - self.base()),
        decreases k,
    {
        let n = self.limit() - self.base();
        if k == 0 {
            vstd::arithmetic::div_mod::lemma_fundamental_div_mod_converse(self.cursor() - self.base(), n, 0, self.cursor() - self.base());
        } else {
            self.lemma_candidate_offset((k - 1) as nat);
            let x = self.cursor() - self.base() + k - 1;
            let q = x / n;
            let r = x % n;
            vstd::arithmetic::div_mod::lemma_fundamental_div_mod(x, n);
            vstd::arithmetic::div_mod::lemma_mod_bound(x, n);
            assert(n * q == q * n) by (nonlinear_arith);
            if r + 1 == n {
                assert((q + 1) * n == q * n + n) by (nonlinear_arith);
                vstd::arithmetic::div_mod::lemma_fundamental_div_mod_converse(x + 1, n, q + 1, 0);
            } else {
                vstd::arithmetic::div_mod::lemma_fundamental_div_mod_converse(x + 1, n, q, r + 1);
            }
        }
    }

    /// A full pass from the cursor meets every port of the range.
    pub proof fn lemma_pass_covers(&self, p: u16) -> (k: nat)
        requires
            self.wf(),
            self.base() <= p < self.limit(),
        ensures
            k < self.limit() - self.base(),
            self.candidate(k) == p,
    {
        let n = self.limit() - self.base();
        let k: nat = if p >= self.cursor() { (p - self.cursor()) as nat } else { (p - self.cursor() + n) as nat };
        self.lemma_candidate_offset(k);
        if p >= self.cursor() {
            vstd::arithmetic::div_mod::lemma_fundamental_div_mod_converse(p - self.base(), n, 0, p - self.base());
        } else {
            vstd::arithmetic::div_mod::lemma_fundamental_div_mod_converse(p - self.base() + n, n, 1, p - self.base());
        }
        k
    }

    /// Walking `k` steps and then `j` more is walking `k + j` steps.
    pub proof fn lemma_candidate_shift(a: PortAllocator, b: PortAllocator, k: nat, j: nat)
        requires
            a.base() == b.base(),
            a.limit() == b.limit(),
            b.cursor() == a.candidate(k),
        ensures
            b.candidate(j) == a.candidate(k + j),
        decreases j,
    {
        if j > 0 {
            Self::lemma_candidate_shift(a, b, k, (j - 1) as nat);
            assert(a.candidate(k + j) == a.after(a.candidate((k + j - 1) as nat)));
        }
    }

    /// Every leased port lies in the range.
    pub proof fn lemma_lease_in_range(&self, p: u16)
        requires
            self.wf(),
            self.leases().contains(p),
        ensures
            self.base() <= p < self.limit(),
    {
        let i = choose|i: int| 0 <= i < self.leased@.len() && self.leased@[i] == p;
    }

    /// A fresh allocator over `[base, limit)` with no leases.
    pub fn new(base: u16, limit: u16) -> (r: Self)
        requires
            base < limit,
        ensures
            r.wf(),
            r.base() == base,
            r.limit() == limit,
            r.cursor() == base,
            r.pass_left() == 0,
            r.leases() == Set::<u16>::empty(),
    {
        let r = PortAllocator { base, limit, cursor: base, pass_left: 0, leased: Vec::new() };
        proof {
            assert(r.leased@ =~= Seq::<u16>::empty());
        }
        r
    }

    /// Whether `port` is leased.
    pub fn is_leased(&self, port: u16) -> (r: bool)
        ensures
            r == self.leases().contains(port),
    {
        let mut i: usize = 0;
        while i < self.leased.len()
            invariant
                0 <= i <= self.leased@.len(),
                forall|j: int| 0 <= j < i ==> self.leased@[j] != port,
            decreases self.leased@.len() - i,
        {
            if self.leased[i] == port {
                proof {
                    assert(self.leased@.to_set().contains(self.leased@[i as int]));
                }
                return true;
            }
            i += 1;
        }
        false
    }

    /// Starts a pass over the whole range, from the cursor.
    pub fn begin_search(&mut self)
        requires
            old(self).wf(),
        ensures
            final(self).wf(),
            final(self).pass_left() == (old(self).limit() - old(self).base()) as nat,
            final(self).base() == old(self).base(),
            final(self).limit() == old(self).limit(),
            final(self).cursor() == old(self).cursor(),
            final(self).leases() == old(self).leases(),
    {
        self.pass_left = self.limit - self.base;
    }

    /// The next step of the pass: the first port from the cursor that is not
    /// leased, or `Exhausted` once the pass is over. The cursor moves past
    /// every candidate examined.
    pub fn next_probe(&mut self) -> (r: PortStep)
        requires
            old(self).wf(),
        ensures
            final(self).wf(),
            final(self).base() == old(self).base(),
            final(self).limit() == old(self).limit(),
            final(self).leases() == old(self).leases(),
            match r {
                PortStep::Probe(p) => exists|k: nat|
                    k < old(self).pass_left()
                    && p == #[trigger] old(self).candidate(k)
                    && !old(self).leases().contains(p)
                    && (forall|j: nat| j < k ==> old(self).leases().contains(#[trigger] old(self).candidate(j)))
                    && final(self).cursor() == old(self).candidate(k + 1)
                    && final(self).pass_left() == old(self).pass_left() - (k + 1),
                PortStep::Exhausted =>
                    (forall|j: nat| j < old(self).pass_left() ==> old(self).leases().contains(#[trigger] old(self).candidate(j)))
                    && final(self).pass_left() == 0
                    && final(self).cursor() == old(self).candidate(old(self).pass_left()),
            },
    {
        let ghost start = *self;
        let ghost mut k: nat = 0;
        while self.pass_left > 0
            invariant
                start == *old(self),
                self.wf(),
                start.wf(),
                self.base == start.base,
                self.limit == start.limit,
                self.leased == start.leased,
                self.cursor == start.candidate(k),
                self.pass_left as nat + k == start.pass_left(),
                forall|j: nat| j < k ==> start.leases().contains(#[trigger] start.candidate(j)),
            decreases self.pass_left,
        {
            let p = self.cursor;
            self.cursor = if p + 1 >= self.limit { self.base } else { p + 1 };
            self.pass_left = self.pass_left - 1;
            proof {
                assert(start.candidate(k + 1) == start.after(start.candidate(k)));
                k = k + 1;
            }
            if !self.is_leased(p) {
                return PortStep::Probe(p);
            }
        }
        PortStep::Exhausted
    }

    /// Records a lease on `port` after a successful probe. Refused (`false`,
    /// nothing changed) when the port is outside the range or already leased.
    pub fn grant(&mut self, port: u16) -> (r: bool)
        requires
            old(self).wf(),
        ensures
            final(self).wf(),
            r == (old(self).base() <= port < old(self).limit() && !old(self).leases().contains(port)),
            final(self).leases() == if r { old(self).leases().insert(port) } else { old(self).leases() },
            final(self).base() == old(self).base(),
            final(self).limit() == old(self).limit(),
            final(self).cursor() == old(self).cursor(),
            final(self).pass_left() == old(self).pass_left(),
    {
        if port < self.base || port >= self.limit || self.is_leased(port) {
            return false;
        }
        let ghost before = self.leased@;
        self.leased.push(port);
        proof {
            assert(self.leased@ == before.push(port));
            assert(self.leased@.to_set() =~= before.to_set().insert(port)) by {
                assert forall|x: u16| self.leased@.to_set().contains(x) == before.to_set().insert(port).contains(x) by {
                    if x != port && self.leased@.contains(x) {
                        let i = choose|i: int| 0 <= i < self.leased@.len() && self.leased@[i] == x;
                        assert(before[i] == x);
                    }
                    if before.contains(x) {
                        let i = choose|i: int| 0 <= i < before.len() && before[i] == x;
                        assert(self.leased@[i] == x);
                    }
                    if x == port {
                        assert(self.leased@[before.len() as int] == port);
                    }
                }
            }
            assert(self.leased@.no_duplicates()) by {
                assert forall|i: int, j: int| 0 <= i < j < self.leased@.len() implies self.leased@[i] != self.leased@[j] by {
                    if j == before.len() {
                        assert(before.contains(before[i]));
                    }
                }
            }
        }
        true
    }

    /// Gives up the lease on `port`; nothing happens when it is not leased.
    pub fn release(&mut self, port: u16)
        requires
            old(self).wf(),
        ensures
            final(self).wf(),
            final(self).leases() == old(self).leases().remove(port),
            final(self).base() == old(self).base(),
            final(self).limit() == old(self).limit(),
            final(self).cursor() == old(self).cursor(),
            final(self).pass_left() == old(self).pass_left(),
    {
        let mut i: usize = 0;
        while i < self.leased.len()
            invariant
                *self == *old(self),
                self.wf(),
                0 <= i <= self.leased@.len(),
                forall|j: int| 0 <= j < i ==> self.leased@[j] != port,
            decreases self.leased@.len() - i,
        {
            if self.leased[i] == port {
                let ghost before = self.leased@;
                self.leased.remove(i);
                proof {
                    let after = self.leased@;
                    assert(after == before.remove(i as int));
                    assert(after.to_set() =~= before.to_set().remove(port)) by {
                        assert forall|x: u16| after.to_set().contains(x) == before.to_set().remove(port).contains(x) by {
                            if after.contains(x) {
                                let m = choose|m: int| 0 <= m < after.len() && after[m] == x;
                                if m < i {
                                    assert(before[m] == x);
                                    assert(m != i);
                                } else {
                                    assert(before[m + 1] == x);
                                }
                            }
                            if before.contains(x) && x != port {
                                let m = choose|m: int| 0 <= m < before.len() && before[m] == x;
                                if m < i {
                                    assert(after[m] == x);
                                } else if m > i {
                                    assert(after[m - 1] == x);
                                }
                            }
                        }
                    }
                    assert forall|a: int, b: int| 0 <= a < b < after.len() implies after[a] != after[b] by {
                        let a2 = if a < i { a } else { a + 1 };
                        let b2 = if b < i { b } else { b + 1 };
                        assert(before[a2] == after[a]);
                        assert(before[b2] == after[b]);
                    }
                    assert forall|m: int| 0 <= m < after.len() implies self.base <= #[trigger] after[m] < self.limit by {
                        let m2 = if m < i { m } else { m + 1 };
                        assert(before[m2] == after[m]);
                    }
                }
                return;
            }
            i += 1;
        }
        proof {
            assert(self.leased@.to_set() =~= self.leased@.to_set().remove(port)) by {
                if self.leased@.contains(port) {
                    let m = choose|m: int| 0 <= m < self.leased@.len() && self.leased@[m] == port;
                    assert(self.leased@[m] != port);
                }
            }
        }
    }
}

} // verus!
