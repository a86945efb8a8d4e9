use vstd::prelude::*;
use crate::error::OrchestratorError;
use crate::ports::{PortAllocator, PortStep, PORT_BASE, PORT_LIMIT};
use crate::table::LabelTable;

verus! {

/// What the supervisor records of a live worker.
pub struct SidecarRecord {
    /// The workspace the worker serves.
    pub vault_path: String,
    /// The port the worker listens on.
    pub ws_port: u16,
}

/// What a caller learns of an open session.
pub struct VaultInfo {
    pub window_label: String,
    pub vault_path: String,
    pub ws_port: u16,
}

/// The supervisor's state as the contracts see it: the live workers by
/// session id, and the leased ports.
pub struct SupervisorView {
    pub sessions: Map<Seq<char>, SidecarRecord>,
    pub leases: Set<u16>,
}

impl SupervisorView {
    /// A port lease taken after a successful probe.
    pub open spec fn reserved(self, port: u16) -> SupervisorView {
        SupervisorView { sessions: self.sessions, leases: self.leases.insert(port) }
    }

    /// A worker recorded under `label`.
    pub open spec fn registered(self, label: Seq<char>, record: SidecarRecord) -> SupervisorView {
        SupervisorView { sessions: self.sessions.insert(label, record), leases: self.leases }
    }

    /// A spawn: the port is leased and the worker recorded.
    pub open spec fn spawned(self, label: Seq<char>, record: SidecarRecord) -> SupervisorView {
        self.reserved(record.ws_port).registered(label, record)
    }

    /// The worker of `label` gone, with its lease; unchanged for an unknown label.
    pub open spec fn terminated(self, label: Seq<char>) -> SupervisorView {
        if self.sessions.contains_key(label) {
            SupervisorView {
                sessions: self.sessions.remove(label),
                leases: self.leases.remove(self.sessions[label].ws_port),
            }
        } else {
            self
        }
    }

    /// Whether some live worker listens on `port`.
    pub open spec fn port_in_use(self, port: u16) -> bool {
        exists|k: Seq<char>| #[trigger] self.sessions.contains_key(k) && self.sessions[k].ws_port == port
    }
}

/// No two live workers share a port, and each holds a leased port of the
/// range, whatever sequence of leases, registrations and releases led here.
pub proof fn lemma_live_ports_distinct(m: &SidecarManager, a: Seq<char>, b: Seq<char>)
    requires
        m.wf(),
        m@.sessions.contains_key(a),
        m@.sessions.contains_key(b),
        a != b,
    ensures
        m@.sessions[a].ws_port != m@.sessions[b].ws_port,
        m@.leases.contains(m@.sessions[a].ws_port),
        PORT_BASE <= m@.sessions[a].ws_port < PORT_LIMIT,
{
    m.lemma_live_port_leased(a);
}

/// A port that is not leased is held by no live worker, so a worker may be
/// recorded on it once it is reserved.
pub proof fn lemma_unleased_port_is_free(m: &SidecarManager, port: u16)
    requires
        m.wf(),
        !m@.leases.contains(port),
    ensures
        !m@.port_in_use(port),
{
    if m@.port_in_use(port) {
        let k = choose|k: Seq<char>| #[trigger] m@.sessions.contains_key(k) && m@.sessions[k].ws_port == port;
        m.lemma_live_port_leased(k);
    }
}

/// Spawning a worker for a new session (its port leased, the worker
/// recorded, the session entered in the routing table `routes`) and then
/// terminating it at once leaves the sessions, the leases and the routing
/// table exactly as they were.
pub proof fn lemma_spawn_then_terminate(
    v: SupervisorView,
    routes: Map<Seq<char>, Seq<char>>,
    label: Seq<char>,
    record: SidecarRecord,
    vault_id: Seq<char>,
)
    requires
        !v.sessions.contains_key(label),
        !v.leases.contains(record.ws_port),
        !routes.contains_key(label),
    ensures
        v.spawned(label, record).terminated(label) == v,
        routes.insert(label, vault_id).remove(label) == routes,
{
    let after = v.spawned(label, record).terminated(label);
    assert(after.sessions =~= v.sessions);
    assert(after.leases =~= v.leases);
    assert(routes.insert(label, vault_id).remove(label) =~= routes);
}

/// Terminating a session that is not live changes nothing.
pub proof fn lemma_terminate_unknown(v: SupervisorView, label: Seq<char>)
    requires
        !v.sessions.contains_key(label),
    ensures
        v.terminated(label) == v,
{
}

/// Tracks one worker per session: its workspace and its port, together
/// with the port leases and the worker runtime once it has been found.
pub struct SidecarManager {
    processes: LabelTable<SidecarRecord>,
    ports: PortAllocator,
    runtime: Option<String>,
}

impl View for SidecarManager {
    type V = SupervisorView;

    closed spec fn view(&self) -> SupervisorView {
        SupervisorView { sessions: self.processes@, leases: self.ports.leases() }
    }
}

impl Default for SidecarManager {
    fn default() -> (r: Self)
        ensures
            r.wf(),
            r@.sessions == Map::<Seq<char>, SidecarRecord>::empty(),
            r@.leases == Set::<u16>::empty(),
    {
        Self::new()
    }
}

impl SidecarManager {
    /// Every worker holds a leased port, and no two workers share one.
    pub closed spec fn wf(&self) -> bool {
        &&& self.processes.wf()
        &&& self.ports.wf()
        &&& self.ports.base() == PORT_BASE
        &&& self.ports.limit() == PORT_LIMIT
        &&& forall|k: Seq<char>| #[trigger] self.processes@.contains_key(k)
            ==> self.ports.leases().contains(self.processes@[k].ws_port)
        &&& forall|a: Seq<char>, b: Seq<char>|
            #[trigger] self.processes@.contains_key(a) && #[trigger] self.processes@.contains_key(b) && a != b
            ==> self.processes@[a].ws_port != self.processes@[b].ws_port
    }

    proof fn lemma_live_port_leased(&self, k: Seq<char>)
        requires
            self.wf(),
            self@.sessions.contains_key(k),
        ensures
            self@.leases.contains(self@.sessions[k].ws_port),
            PORT_BASE <= self@.sessions[k].ws_port < PORT_LIMIT,
    {
        let p = self@.sessions[k].ws_port;
        assert(self.processes@.contains_key(k));
        assert(self.ports.leases().contains(p));
        self.ports.lemma_lease_in_range(p);
    }

    /// The port allocator's cursor.
    pub closed spec fn port_cursor(&self) -> u16 {
        self.ports.cursor()
    }

    /// The port `k` steps past the cursor, walking the range as a ring.
    pub open spec fn port_candidate(&self, k: nat) -> u16
        decreases k,
    {
        if k == 0 {
            self.port_cursor()
        } else {
            let p = self.port_candidate((k - 1) as nat);
            if p + 1 >= PORT_LIMIT { PORT_BASE } else { (p + 1) as u16 }
        }
    }

    proof fn lemma_port_candidate(&self, k: nat)
        requires
            self.wf(),
        ensures
            self.port_candidate(k) == self.ports.candidate(k),
        decreases k,
    {
        if k > 0 {
            self.lemma_port_candidate((k - 1) as nat);
        }
    }

    /// The worker runtime found earlier, if any.
    pub closed spec fn cached_runtime_spec(&self) -> Option<Seq<char>> {
        match self.runtime {
            Some(s) => Some(s@),
            None => None,
        }
    }

    pub fn new() -> (r: Self)
        ensures
            r.wf(),
            r@.sessions == Map::<Seq<char>, SidecarRecord>::empty(),
            r@.leases == Set::<u16>::empty(),
            r.port_cursor() == PORT_BASE,
            r.cached_runtime_spec() == None::<Seq<char>>,
    {
        SidecarManager {
            processes: LabelTable::new(),
            ports: PortAllocator::new(PORT_BASE, PORT_LIMIT),
            runtime: None,
        }
    }

    /// Finds and leases a port for a new worker. A pass over the whole
    /// range starts at the cursor; leased ports are skipped, the others are
    /// offered to `is_port_available`, and the first it accepts is leased.
    /// When the pass ends without one, every port of the range was leased or
    /// refused, and nothing is leased.
    pub fn allocate_port<F: Fn(u16) -> bool>(&mut self, is_port_available: F) -> (r: Result<u16, OrchestratorError>)
        requires
            old(self).wf(),
            forall|p: u16| is_port_available.requires((p,)),
        ensures
            final(self).wf(),
            final(self).cached_runtime_spec() == old(self).cached_runtime_spec(),
            match r {
                Ok(p) => PORT_BASE <= p < PORT_LIMIT
                    && !old(self)@.leases.contains(p)
                    && is_port_available.ensures((p,), true)
                    && final(self)@ == old(self)@.reserved(p)
                    && exists|k: nat| k < PORT_LIMIT - PORT_BASE
                        && p == #[trigger] old(self).port_candidate(k)
                        && final(self).port_cursor() == old(self).port_candidate(k + 1)
                        && forall|j: nat| j < k ==> old(self)@.leases.contains(#[trigger] old(self).port_candidate(j))
                            || is_port_available.ensures((old(self).port_candidate(j),), false),
                Err(e) => e == OrchestratorError::Exhausted
                    && final(self)@ == old(self)@
                    && forall|p: u16| PORT_BASE <= p < PORT_LIMIT ==>
                        old(self)@.leases.contains(p) || #[trigger] is_port_available.ensures((p,), false),
            },
    {
        self.ports.begin_search();
        let ghost start = self.ports;
        let ghost mut k: nat = 0;
        loop
            invariant
                self.wf(),
                start.wf(),
                self@ == old(self)@,
                self.runtime == old(self).runtime,
                start.leases() == old(self)@.leases,
                start.base() == PORT_BASE,
                start.limit() == PORT_LIMIT,
                start.pass_left() == (PORT_LIMIT - PORT_BASE) as nat,
                self.ports.cursor() == start.candidate(k),
                self.ports.pass_left() + k == start.pass_left(),
                start.cursor() == old(self).ports.cursor(),
                old(self).wf(),
                forall|j: nat| j < k ==> start.leases().contains(#[trigger] start.candidate(j))
                    || is_port_available.ensures((start.candidate(j),), false),
                forall|p: u16| is_port_available.requires((p,)),
            decreases self.ports.pass_left(),
        {
            let ghost cur = self.ports;
            match self.ports.next_probe() {
                PortStep::Probe(p) => {
                    let ghost m = choose|m: nat| m < cur.pass_left() && p == #[trigger] cur.candidate(m)
                        && !cur.leases().contains(p)
                        && (forall|j: nat| j < m ==> cur.leases().contains(#[trigger] cur.candidate(j)))
                        && self.ports.cursor() == cur.candidate(m + 1)
                        && self.ports.pass_left() == cur.pass_left() - (m + 1);
                    proof {
                        cur.lemma_candidate_in_range(m);
                    }
                    if is_port_available(p) {
                        let granted = self.ports.grant(p);
                        proof {
                            assert(granted);
                            let kk = k + m;
                            PortAllocator::lemma_candidate_shift(start, cur, k, m);
                            PortAllocator::lemma_candidate_shift(start, cur, k, m + 1);
                            old(self).lemma_port_candidate(kk);
                            old(self).lemma_port_candidate(kk + 1);
                            PortAllocator::lemma_candidate_shift(old(self).ports, start, 0, kk);
                            PortAllocator::lemma_candidate_shift(old(self).ports, start, 0, kk + 1);
                            assert forall|j: nat| j < kk implies old(self)@.leases.contains(#[trigger] old(self).port_candidate(j))
                                || is_port_available.ensures((old(self).port_candidate(j),), false) by {
                                old(self).lemma_port_candidate(j);
                                PortAllocator::lemma_candidate_shift(old(self).ports, start, 0, j);
                                if j >= k {
                                    PortAllocator::lemma_candidate_shift(start, cur, k, (j - k) as nat);
                                }
                            }
                            assert(p == old(self).port_candidate(kk));
                            assert forall|key: Seq<char>| #[trigger] self.processes@.contains_key(key)
                                implies self.ports.leases().contains(self.processes@[key].ws_port) by {
                                assert(old(self)@.sessions.contains_key(key));
                            }
                            assert(self@ == old(self)@.reserved(p));
                        }
                        return Ok(p);
                    }
                    proof {
                        assert forall|j: nat| j < k + m + 1 implies start.leases().contains(#[trigger] start.candidate(j))
                            || is_port_available.ensures((start.candidate(j),), false) by {
                            if j >= k {
                                PortAllocator::lemma_candidate_shift(start, cur, k, (j - k) as nat);
                            }
                        }
                        PortAllocator::lemma_candidate_shift(start, cur, k, m + 1);
                        k = k + m + 1;
                    }
                },
                PortStep::Exhausted => {
                    proof {
                        assert forall|p: u16| PORT_BASE <= p < PORT_LIMIT implies
                            old(self)@.leases.contains(p) || #[trigger] is_port_available.ensures((p,), false) by {
                            let j = start.lemma_pass_covers(p);
                            if j >= k {
                                PortAllocator::lemma_candidate_shift(start, cur, k, (j - k) as nat);
                            }
                        }
                    }
                    return Err(OrchestratorError::Exhausted);
                },
            }
        }
    }

    /// Whether `port` is leased.
    pub fn is_leased(&self, port: u16) -> (r: bool)
        requires
            self.wf(),
        ensures
            r == self@.leases.contains(port),
    {
        self.ports.is_leased(port)
    }

    /// Whether a live worker listens on `port`.
    pub fn port_in_use(&self, port: u16) -> (r: bool)
        requires
            self.wf(),
        ensures
            r == self@.port_in_use(port),
    {
        let n = self.processes.len();
        let mut i: usize = 0;
        while i < n
            invariant
                self.wf(),
                n == self.processes.key_seq().len(),
                0 <= i <= n,
                forall|j: int| 0 <= j < i ==> (#[trigger] self.processes.value_seq()[j]).ws_port != port,
            decreases n - i,
        {
            if self.processes.value_at(i).ws_port == port {
                proof {
                    let k = self.processes.key_seq()[i as int];
                    assert(self.processes@.contains_key(k));
                    assert(self.processes@[k] == self.processes.value_seq()[i as int]);
                    assert(self@.sessions.contains_key(k) && self@.sessions[k].ws_port == port);
                }
                return true;
            }
            i += 1;
        }
        proof {
            assert forall|k: Seq<char>| #[trigger] self.processes@.contains_key(k) implies self.processes@[k].ws_port != port by {
                let j = choose|j: int| 0 <= j < n && self.processes.key_seq()[j] == k;
                assert(self.processes.value_seq()[j].ws_port != port);
            }
        }
        false
    }

    /// Records the worker of session `window_label`, serving `vault_path` on
    /// `ws_port`. The port must be leased and free of other workers.
    pub fn register_sidecar(&mut self, window_label: String, vault_path: String, ws_port: u16) -> (r: Result<(), OrchestratorError>)
        requires
            old(self).wf(),
        ensures
            final(self).wf(),
            final(self).port_cursor() == old(self).port_cursor(),
            final(self).cached_runtime_spec() == old(self).cached_runtime_spec(),
            old(self)@.sessions.contains_key(window_label@) ==> r == Err::<(), OrchestratorError>(OrchestratorError::SessionExists),
            !old(self)@.sessions.contains_key(window_label@)
                && (!old(self)@.leases.contains(ws_port) || old(self)@.port_in_use(ws_port))
                ==> r == Err::<(), OrchestratorError>(OrchestratorError::PortUnavailable),
            r is Ok <==> (!old(self)@.sessions.contains_key(window_label@)
                && old(self)@.leases.contains(ws_port) && !old(self)@.port_in_use(ws_port)),
            r is Ok ==> final(self)@ == old(self)@.registered(window_label@, SidecarRecord { vault_path, ws_port }),
            r is Err ==> final(self)@ == old(self)@,
    {
        if self.processes.contains_key(window_label.as_str()) {
            return Err(OrchestratorError::SessionExists);
        }
        if !self.ports.is_leased(ws_port) || self.port_in_use(ws_port) {
            return Err(OrchestratorError::PortUnavailable);
        }
        let ghost label = window_label@;
        let record = SidecarRecord { vault_path, ws_port };
        self.processes.insert(window_label, record);
        proof {
            assert forall|a: Seq<char>, b: Seq<char>|
                #[trigger] self.processes@.contains_key(a) && #[trigger] self.processes@.contains_key(b) && a != b
                implies self.processes@[a].ws_port != self.processes@[b].ws_port by {
                if a == label {
                    assert(old(self)@.sessions.contains_key(b));
                    assert(self.processes@[a].ws_port == ws_port);
                    assert(old(self)@.sessions[b].ws_port != ws_port);
                } else if b == label {
                    assert(old(self)@.sessions.contains_key(a));
                    assert(self.processes@[b].ws_port == ws_port);
                    assert(old(self)@.sessions[a].ws_port != ws_port);
                } else {
                    assert(old(self).processes@.contains_key(a));
                    assert(old(self).processes@.contains_key(b));
                }
            }
            assert forall|k: Seq<char>| #[trigger] self.processes@.contains_key(k)
                implies self.ports.leases().contains(self.processes@[k].ws_port) by {
                if k != label {
                    assert(old(self).processes@.contains_key(k));
                }
            }
        }
        Ok(())
    }

    /// Gives back the lease on `port` after a spawn that failed. A port that a
    /// live worker holds keeps its lease.
    pub fn abandon_port(&mut self, port: u16)
        requires
            old(self).wf(),
        ensures
            final(self).wf(),
            final(self)@.sessions == old(self)@.sessions,
            final(self)@.leases == if old(self)@.port_in_use(port) { old(self)@.leases } else { old(self)@.leases.remove(port) },
            final(self).port_cursor() == old(self).port_cursor(),
            final(self).cached_runtime_spec() == old(self).cached_runtime_spec(),
    {
        if self.port_in_use(port) {
            return;
        }
        self.ports.release(port);
        proof {
            assert forall|k: Seq<char>| #[trigger] self.processes@.contains_key(k)
                implies self.ports.leases().contains(self.processes@[k].ws_port) by {
                assert(old(self)@.sessions.contains_key(k));
                assert(old(self)@.sessions[k].ws_port != port);
            }
        }
    }

    /// Forgets the worker of `window_label` and releases its port, handing
    /// back its record so that the caller can stop the process. An unknown
    /// session is no error: nothing changes and `None` comes back.
    pub fn terminate_sidecar(&mut self, window_label: &str) -> (r: Option<SidecarRecord>)
        requires
            old(self).wf(),
        ensures
            final(self).wf(),
            final(self)@ == old(self)@.terminated(window_label@),
            r == if old(self)@.sessions.contains_key(window_label@) {
                Some(old(self)@.sessions[window_label@])
            } else {
                None::<SidecarRecord>
            },
            final(self).port_cursor() == old(self).port_cursor(),
            final(self).cached_runtime_spec() == old(self).cached_runtime_spec(),
    {
        let r = self.processes.remove(window_label);
        match &r {
            Some(record) => {
                self.ports.release(record.ws_port);
                proof {
                    let label = window_label@;
                    let p = record.ws_port;
                    assert forall|k: Seq<char>| #[trigger] self.processes@.contains_key(k)
                        implies self.ports.leases().contains(self.processes@[k].ws_port) by {
                        assert(old(self).processes@.contains_key(k));
                        assert(k != label);
                        assert(old(self).processes@[k].ws_port != p);
                    }
                    assert forall|a: Seq<char>, b: Seq<char>|
                        #[trigger] self.processes@.contains_key(a) && #[trigger] self.processes@.contains_key(b) && a != b
                        implies self.processes@[a].ws_port != self.processes@[b].ws_port by {
                        assert(old(self).processes@.contains_key(a));
                        assert(old(self).processes@.contains_key(b));
                    }
                }
            },
            None => {
                proof {
                    assert(old(self).processes@.remove(window_label@) =~= old(self).processes@);
                }
            },
        }
        r
    }

    /// The port of the worker of `window_label`.
    pub fn get_ws_port(&self, window_label: &str) -> (r: Option<u16>)
        requires
            self.wf(),
        ensures
            r == if self@.sessions.contains_key(window_label@) {
                Some(self@.sessions[window_label@].ws_port)
            } else {
                None::<u16>
            },
    {
        match self.processes.get(window_label) {
            Some(record) => Some(record.ws_port),
            None => None,
        }
    }

    /// The workspace of the worker of `window_label`.
    pub fn get_vault_path(&self, window_label: &str) -> (r: Option<&String>)
        requires
            self.wf(),
        ensures
            match r {
                Some(p) => self@.sessions.contains_key(window_label@) && *p == self@.sessions[window_label@].vault_path,
                None => !self@.sessions.contains_key(window_label@),
            },
    {
        match self.processes.get(window_label) {
            Some(record) => Some(&record.vault_path),
            None => None,
        }
    }

    /// The session id, workspace and port of the worker of `window_label`.
    pub fn session_info(&self, window_label: &str) -> (r: Option<VaultInfo>)
        requires
            self.wf(),
        ensures
            match r {
                Some(info) => self@.sessions.contains_key(window_label@)
                    && info.window_label@ == window_label@
                    && info.vault_path@ == self@.sessions[window_label@].vault_path@
                    && info.ws_port == self@.sessions[window_label@].ws_port,
                None => !self@.sessions.contains_key(window_label@),
            },
    {
        match self.processes.get(window_label) {
            Some(record) => Some(VaultInfo {
                window_label: window_label.to_owned(),
                vault_path: record.vault_path.clone(),
                ws_port: record.ws_port,
            }),
            None => None,
        }
    }

    /// Whether a worker is tracked for `window_label`.
    pub fn is_running(&self, window_label: &str) -> (r: bool)
        requires
            self.wf(),
        ensures
            r == self@.sessions.contains_key(window_label@),
    {
        self.processes.contains_key(window_label)
    }

    /// The ids of all sessions with a live worker.
    pub fn session_ids(&self) -> (r: Vec<String>)
        requires
            self.wf(),
        ensures
            crate::table::texts(r@).to_set() == self@.sessions.dom(),
            crate::table::texts(r@).no_duplicates(),
    {
        let r = self.processes.keys();
        proof {
            assert(crate::table::texts(r@).to_set() =~= self@.sessions.dom());
        }
        r
    }

    /// The worker runtime found earlier, if any.
    pub fn cached_runtime(&self) -> (r: Option<&String>)
        ensures
            match r {
                Some(s) => self.cached_runtime_spec() == Some(s@),
                None => self.cached_runtime_spec() == None::<Seq<char>>,
            },
    {
        match &self.runtime {
            Some(s) => Some(s),
            None => None,
        }
    }

    /// Keeps `runtime` as the worker runtime for the rest of the supervisor's life.
    pub fn remember_runtime(&mut self, runtime: String)
        requires
            old(self).wf(),
        ensures
            final(self).wf(),
            final(self)@ == old(self)@,
            final(self).port_cursor() == old(self).port_cursor(),
            final(self).cached_runtime_spec() == Some(runtime@),
    {
        self.runtime = Some(runtime);
    }
}

} // verus!
