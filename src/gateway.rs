use vstd::prelude::*;
use crate::error::OrchestratorError;

verus! {

/// The correlation state of one worker connection as the contracts see it.
pub struct PendingView<T> {
    /// The id the next request receives.
    pub next_id: u64,
    /// The callers still waiting, by request id.
    pub waiting: Map<u64, T>,
    /// Whether a timeout has spoiled the connection.
    pub stale: bool,
}

impl<T> PendingView<T> {
    /// Every waiting request carries an id handed out earlier.
    pub open spec fn wf(self) -> bool {
        forall|id: u64| #[trigger] self.waiting.contains_key(id) ==> id < self.next_id
    }

    /// Whether another request can be numbered.
    pub open spec fn can_begin(self) -> bool {
        self.next_id < u64::MAX
    }

    /// A new request from `waiter`, numbered `next_id`.
    pub open spec fn begun(self, waiter: T) -> PendingView<T> {
        PendingView {
            next_id: (self.next_id + 1) as u64,
            waiting: self.waiting.insert(self.next_id, waiter),
            stale: self.stale,
        }
    }

    /// The response to `id` has arrived: its caller stops waiting.
    pub open spec fn completed(self, id: u64) -> PendingView<T> {
        PendingView { next_id: self.next_id, waiting: self.waiting.remove(id), stale: self.stale }
    }

    /// The request `id` ran out of time: its caller stops waiting and the
    /// connection must be made anew.
    pub open spec fn expired(self, id: u64) -> PendingView<T> {
        PendingView { next_id: self.next_id, waiting: self.waiting.remove(id), stale: true }
    }
}

/// Two requests in flight on one connection, answered in either order: each
/// completion hands back the caller of that very request, never the other.
pub proof fn lemma_out_of_order_responses<T>(v: PendingView<T>, a: T, b: T)
    requires
        v.wf(),
        v.next_id + 1 < u64::MAX,
    ensures
        v.next_id != (v.next_id + 1) as u64,
        v.begun(a).begun(b).waiting[(v.next_id + 1) as u64] == b,
        v.begun(a).begun(b).completed((v.next_id + 1) as u64).waiting[v.next_id] == a,
        v.begun(a).begun(b).waiting[v.next_id] == a,
        v.begun(a).begun(b).completed(v.next_id).waiting[(v.next_id + 1) as u64] == b,
        v.begun(a).begun(b).waiting.contains_key(v.next_id),
        v.begun(a).begun(b).waiting.contains_key((v.next_id + 1) as u64),
        v.begun(a).begun(b).completed(v.next_id).waiting.contains_key((v.next_id + 1) as u64),
        v.begun(a).begun(b).completed((v.next_id + 1) as u64).waiting.contains_key(v.next_id),
{
}

/// A request that runs out of time is taken out alone: every other request
/// keeps its caller, the connection is marked for renewal, and the next
/// request still gets an id that nobody waits on.
pub proof fn lemma_timeout_leaves_others<T>(v: PendingView<T>, id: u64, other: u64)
    requires
        v.wf(),
        other != id,
        v.waiting.contains_key(other),
    ensures
        v.expired(id).wf(),
        v.expired(id).stale,
        !v.expired(id).waiting.contains_key(id),
        v.expired(id).waiting.contains_key(other),
        v.expired(id).waiting[other] == v.waiting[other],
        v.expired(id).can_begin() == v.can_begin(),
        !v.expired(id).waiting.contains_key(v.expired(id).next_id),
{
}

/// How a request ended, as seen from the connection.
pub enum Reply<V> {
    /// The worker answered with status ok and this data.
    Answered(V),
    /// The worker answered with an error status and this detail.
    Refused(V),
    /// No answer came within the deadline.
    TimedOut,
    /// The connection was torn down before an answer came.
    Closed,
}

/// What the caller of a command receives: the data, or the failure with the
/// worker's detail where it gave one.
pub fn reply_outcome<V>(reply: Reply<V>) -> (r: Result<V, (OrchestratorError, Option<V>)>)
    ensures
        match reply {
            Reply::Answered(d) => r == Ok::<V, (OrchestratorError, Option<V>)>(d),
            Reply::Refused(e) => r == Err::<V, (OrchestratorError, Option<V>)>((OrchestratorError::Worker, Some(e))),
            Reply::TimedOut => r == Err::<V, (OrchestratorError, Option<V>)>((OrchestratorError::Timeout, None)),
            Reply::Closed => r == Err::<V, (OrchestratorError, Option<V>)>((OrchestratorError::SessionNotFound, None)),
        },
{
    match reply {
        Reply::Answered(d) => Ok(d),
        Reply::Refused(e) => Err((OrchestratorError::Worker, Some(e))),
        Reply::TimedOut => Err((OrchestratorError::Timeout, None)),
        Reply::Closed => Err((OrchestratorError::SessionNotFound, None)),
    }
}

/// Matches responses on a shared worker connection to their callers. Each
/// request carries its own id, so responses may come back in any order.
pub struct CommandGateway<T> {
    next_id: u64,
    pending: Vec<(u64, T)>,
    waiting: Ghost<Map<u64, T>>,
    stale: bool,
}

impl<T> View for CommandGateway<T> {
    type V = PendingView<T>;

    closed spec fn view(&self) -> PendingView<T> {
        PendingView { next_id: self.next_id, waiting: self.waiting@, stale: self.stale }
    }
}

impl<T> CommandGateway<T> {
    /// The ids of the waiting requests, oldest first.
    pub closed spec fn pending_ids(&self) -> Seq<u64> {
        self.pending@.map_values(|e: (u64, T)| e.0)
    }

    /// Ids ascend along the queue, stay below `next_id`, and the ghost map
    /// holds exactly the queued callers.
    pub closed spec fn wf(&self) -> bool {
        &&& forall|i: int, j: int| 0 <= i < j < self.pending@.len() ==> self.pending@[i].0 < self.pending@[j].0
        &&& forall|i: int| 0 <= i < self.pending@.len() ==> {
            &&& (#[trigger] self.pending@[i]).0 < self.next_id
            &&& self.waiting@.contains_key(self.pending@[i].0)
            &&& self.waiting@[self.pending@[i].0] == self.pending@[i].1
        }
        &&& forall|id: u64| #[trigger] self.waiting@.contains_key(id)
            ==> exists|i: int| 0 <= i < self.pending@.len() && (#[trigger] self.pending@[i]).0 == id
    }

    proof fn lemma_view_wf(&self)
        requires
            self.wf(),
        ensures
            self@.wf(),
    {
        assert forall|id: u64| #[trigger] self@.waiting.contains_key(id) implies id < self@.next_id by {
            let i = choose|i: int| 0 <= i < self.pending@.len() && (#[trigger] self.pending@[i]).0 == id;
        }
    }

    /// A fresh connection with nobody waiting.
    pub fn new() -> (r: Self)
        ensures
            r.wf(),
            r@.wf(),
            r@.waiting == Map::<u64, T>::empty(),
            r@.next_id == 1,
            !r@.stale,
    {
        CommandGateway { next_id: 1, pending: Vec::new(), waiting: Ghost(Map::empty()), stale: false }
    }

    /// Numbers a new request and records `waiter` as its caller. `None`
    /// when the ids are used up.
    pub fn begin(&mut self, waiter: T) -> (r: Option<u64>)
        requires
            old(self).wf(),
        ensures
            final(self).wf(),
            final(self)@.wf(),
            r is Some <==> old(self)@.can_begin(),
            match r {
                Some(id) => id == old(self)@.next_id && !old(self)@.waiting.contains_key(id)
                    && final(self)@ == old(self)@.begun(waiter),
                None => final(self)@ == old(self)@,
            },
    {
        proof {
            self.lemma_view_wf();
        }
        if self.next_id == u64::MAX {
            return None;
        }
        let id = self.next_id;
        let ghost before = self.pending@;
        self.pending.push((id, waiter));
        self.waiting = Ghost(self.waiting@.insert(id, waiter));
        self.next_id = id + 1;
        proof {
            assert(self.pending@ == before.push((id, waiter)));
            assert forall|i: int| 0 <= i < self.pending@.len() implies {
                &&& (#[trigger] self.pending@[i]).0 < self.next_id
                &&& self.waiting@.contains_key(self.pending@[i].0)
                &&& self.waiting@[self.pending@[i].0] == self.pending@[i].1
            } by {
                if i < before.len() {
                    assert(before[i] == self.pending@[i]);
                    assert(old(self).pending@[i].0 < id);
                }
            }
            assert forall|id2: u64| #[trigger] self.waiting@.contains_key(id2)
                implies exists|i: int| 0 <= i < self.pending@.len() && (#[trigger] self.pending@[i]).0 == id2 by {
                if id2 == id {
                    assert(self.pending@[before.len() as int].0 == id);
                } else {
                    assert(old(self).waiting@.contains_key(id2));
                    let i = choose|i: int| 0 <= i < before.len() && (#[trigger] old(self).pending@[i]).0 == id2;
                    assert(self.pending@[i] == before[i]);
                }
            }
            self.lemma_view_wf();
        }
        Some(id)
    }

    /// The position of request `request_id` in the queue.
    fn position(&self, request_id: u64) -> (r: Option<usize>)
        requires
            self.wf(),
        ensures
            match r {
                Some(i) => i < self.pending@.len() && self.pending@[i as int].0 == request_id,
                None => !self@.waiting.contains_key(request_id),
            },
    {
        let mut i: usize = 0;
        while i < self.pending.len()
            invariant
                self.wf(),
                0 <= i <= self.pending@.len(),
                forall|j: int| 0 <= j < i ==> (#[trigger] self.pending@[j]).0 != request_id,
            decreases self.pending@.len() - i,
        {
            if self.pending[i].0 == request_id {
                return Some(i);
            }
            i += 1;
        }
        None
    }

    /// Whether request `request_id` still waits for its response.
    pub fn is_waiting(&self, request_id: u64) -> (r: bool)
        requires
            self.wf(),
        ensures
            r == self@.waiting.contains_key(request_id),
    {
        match self.position(request_id) {
            Some(_) => true,
            None => false,
        }
    }

    /// Takes the caller of `request_id` out of the queue.
    fn take(&mut self, request_id: u64) -> (r: Option<T>)
        requires
            old(self).wf(),
        ensures
            final(self).wf(),
            final(self)@.wf(),
            final(self)@ == old(self)@.completed(request_id),
            r == if old(self)@.waiting.contains_key(request_id) {
                Some(old(self)@.waiting[request_id])
            } else {
                None::<T>
            },
    {
        match self.position(request_id) {
            Some(i) => {
                let ghost before = self.pending@;
                let entry = self.pending.remove(i);
                self.waiting = Ghost(self.waiting@.remove(request_id));
                proof {
                    let after = self.pending@;
                    let ii = i as int;
                    assert(after == before.remove(ii));
                    assert forall|a: int, b: int| 0 <= a < b < after.len() implies after[a].0 < after[b].0 by {
                        let a2 = if a < ii { a } else { a + 1 };
                        let b2 = if b < ii { b } else { b + 1 };
                        assert(before[a2] == after[a]);
                        assert(before[b2] == after[b]);
                    }
                    assert forall|m: int| 0 <= m < after.len() implies {
                        &&& (#[trigger] after[m]).0 < self.next_id
                        &&& self.waiting@.contains_key(after[m].0)
                        &&& self.waiting@[after[m].0] == after[m].1
                    } by {
                        let m2 = if m < ii { m } else { m + 1 };
                        assert(before[m2] == after[m]);
                        assert(before[m2].0 != before[ii].0);
                    }
                    assert forall|id2: u64| #[trigger] self.waiting@.contains_key(id2)
                        implies exists|m: int| 0 <= m < after.len() && (#[trigger] after[m]).0 == id2 by {
                        assert(old(self).waiting@.contains_key(id2));
                        let m = choose|m: int| 0 <= m < before.len() && (#[trigger] before[m]).0 == id2;
                        assert(m != ii);
                        if m < ii {
                            assert(after[m] == before[m]);
                        } else {
                            assert(after[m - 1] == before[m]);
                        }
                    }
                    self.lemma_view_wf();
                }
                Some(entry.1)
            },
            None => {
                proof {
                    assert(self.waiting@.remove(request_id) =~= self.waiting@);
                    self.lemma_view_wf();
                }
                None
            },
        }
    }

    /// The response to `request_id` has arrived: hands back the caller that
    /// sent that very request, or `None` when nobody waits for it any more.
    pub fn complete(&mut self, request_id: u64) -> (r: Option<T>)
        requires
            old(self).wf(),
        ensures
            final(self).wf(),
            final(self)@.wf(),
            final(self)@ == old(self)@.completed(request_id),
            r == if old(self)@.waiting.contains_key(request_id) {
                Some(old(self)@.waiting[request_id])
            } else {
                None::<T>
            },
    {
        self.take(request_id)
    }

    /// Request `request_id` ran out of time: hands back its caller, to be
    /// told of the timeout, and marks the connection for renewal. Other
    /// requests keep waiting.
    pub fn expire(&mut self, request_id: u64) -> (r: Option<T>)
        requires
            old(self).wf(),
        ensures
            final(self).wf(),
            final(self)@.wf(),
            final(self)@ == old(self)@.expired(request_id),
            r == if old(self)@.waiting.contains_key(request_id) {
                Some(old(self)@.waiting[request_id])
            } else {
                None::<T>
            },
    {
        self.stale = true;
        proof {
            assert(self.pending@ == old(self).pending@);
            assert(self.waiting@ == old(self).waiting@);
        }
        self.take(request_id)
    }

    /// The connection was made anew. Requests sent on the old one will get
    /// no answer, so their callers come back, oldest first, to be told of
    /// the failure.
    pub fn reconnected(&mut self) -> (r: Vec<T>)
        requires
            old(self).wf(),
        ensures
            final(self).wf(),
            final(self)@.wf(),
            final(self)@.next_id == old(self)@.next_id,
            final(self)@.waiting == Map::<u64, T>::empty(),
            !final(self)@.stale,
            old(self).pending_ids().no_duplicates(),
            old(self).pending_ids().to_set() == old(self)@.waiting.dom(),
            r@.len() == old(self).pending_ids().len(),
            forall|i: int| 0 <= i < r@.len() ==> #[trigger] r@[i] == old(self)@.waiting[old(self).pending_ids()[i]],
    {
        let r = self.drain();
        self.stale = false;
        r
    }

    /// Whether the connection must be made anew before the next request.
    pub fn needs_reconnect(&self) -> (r: bool)
        ensures
            r == self@.stale,
    {
        self.stale
    }

    /// Takes every waiting caller out, oldest first, for instance when the
    /// worker stops: each is handed back once, to be told of the failure.
    pub fn drain(&mut self) -> (r: Vec<T>)
        requires
            old(self).wf(),
        ensures
            final(self).wf(),
            final(self)@.wf(),
            final(self)@.next_id == old(self)@.next_id,
            final(self)@.stale == old(self)@.stale,
            final(self)@.waiting == Map::<u64, T>::empty(),
            old(self).pending_ids().no_duplicates(),
            old(self).pending_ids().to_set() == old(self)@.waiting.dom(),
            r@.len() == old(self).pending_ids().len(),
            forall|i: int| 0 <= i < r@.len() ==> #[trigger] r@[i] == old(self)@.waiting[old(self).pending_ids()[i]],
    {
        let mut queue: Vec<(u64, T)> = Vec::new();
        std::mem::swap(&mut queue, &mut self.pending);
        self.waiting = Ghost(Map::empty());
        let ghost q = queue@;
        let ghost ids = old(self).pending_ids();
        proof {
            assert(self.pending@ =~= Seq::<(u64, T)>::empty());
        }
        let mut r: Vec<T> = Vec::new();
        while queue.len() > 0
            invariant
                self.pending@.len() == 0,
                self.waiting@ == Map::<u64, T>::empty(),
                self.next_id == old(self).next_id,
                self.stale == old(self).stale,
                q == old(self).pending@,
                ids == old(self).pending_ids(),
                r@.len() + queue@.len() == q.len(),
                forall|i: int| 0 <= i < r@.len() ==> #[trigger] r@[i] == q[i].1,
                forall|j: int| 0 <= j < queue@.len() ==> #[trigger] queue@[j] == q[r@.len() + j],
            decreases queue@.len(),
        {
            let ghost before = queue@;
            let entry = queue.remove(0);
            proof {
                assert(queue@ == before.remove(0));
                assert forall|j: int| 0 <= j < queue@.len() implies #[trigger] queue@[j] == q[r@.len() + 1 + j] by {
                    assert(queue@[j] == before[j + 1]);
                }
            }
            r.push(entry.1);
        }
        proof {
            let old_self = *old(self);
            assert(q == old_self.pending@);
            assert forall|a: int, b: int| 0 <= a < b < ids.len() implies ids[a] != ids[b] by {
                assert(q[a].0 < q[b].0);
            }
            assert forall|id: u64| ids.to_set().contains(id) <==> old_self@.waiting.dom().contains(id) by {
                if ids.contains(id) {
                    let i = choose|i: int| 0 <= i < ids.len() && ids[i] == id;
                    assert(q[i].0 == id);
                }
                if old_self@.waiting.contains_key(id) {
                    let i = choose|i: int| 0 <= i < q.len() && (#[trigger] q[i]).0 == id;
                    assert(ids[i] == id);
                }
            }
            assert(ids.to_set() =~= old_self@.waiting.dom());
            assert forall|i: int| 0 <= i < r@.len() implies #[trigger] r@[i] == old_self@.waiting[ids[i]] by {
                assert(ids[i] == q[i].0);
                assert(old_self.pending@[i] == q[i]);
            }
            self.lemma_view_wf();
        }
        r
    }
}

} // verus!
