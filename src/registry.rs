//! The subscription registry and the counter that hands out session ids.
use vstd::prelude::*;
use crate::errors::QuoteError;
use crate::protocol::{ClientSubscription, ServerResponse, response_text};

verus! {

/// The first session id handed out.
pub const FIRST_SESSION_ID: usize = 1000;

/// Hands out session ids, each one greater than the last.
pub struct SessionIds {
    pub next: usize,
}

/// `id` was handed out by a counter that went from `before` to `after`.
pub open spec fn issued(before: SessionIds, after: SessionIds, id: usize) -> bool {
    before.next == id && after.next == id + 1
}

impl SessionIds {
    pub fn new() -> (r: SessionIds)
        ensures
            r.next == FIRST_SESSION_ID,
    {
        SessionIds { next: FIRST_SESSION_ID }
    }

    /// The next session id; `None` once every id has been handed out.
    pub fn gen_id(&mut self) -> (r: Option<usize>)
        ensures
            old(self).next < usize::MAX ==> r == Some(old(self).next) && issued(
                *old(self),
                *final(self),
                old(self).next,
            ),
            old(self).next == usize::MAX ==> r is None && *final(self) == *old(self),
            final(self).next >= old(self).next,
    {
        if self.next == usize::MAX {
            None
        } else {
            let id = self.next;
            self.next = self.next + 1;
            Some(id)
        }
    }
}

/// Ids handed out by the same counter, one before the other, are strictly
/// increasing, however many were handed out between them; so no two sessions
/// share an id.
pub proof fn lemma_ids_strictly_increase(
    c0: SessionIds,
    c1: SessionIds,
    c2: SessionIds,
    c3: SessionIds,
    a: usize,
    b: usize,
)
    requires
        issued(c0, c1, a),
        c1.next <= c2.next,
        issued(c2, c3, b),
    ensures
        a < b,
{
}

/// A run of the counter: each state's next id is no smaller than the one before.
pub open spec fn counter_run(h: Seq<SessionIds>) -> bool {
    forall|j: int| 0 <= j < h.len() - 1 ==> #[trigger] h[j].next <= h[j + 1].next
}

proof fn lemma_run_monotone(h: Seq<SessionIds>, a: int, b: int)
    requires
        counter_run(h),
        0 <= a <= b < h.len(),
    ensures
        h[a].next <= h[b].next,
    decreases b - a,
{
    if a < b {
        lemma_run_monotone(h, a, b - 1);
        assert(h[b - 1].next <= h[b].next);
    }
}

/// Every connection draws its id from the one counter: where the k-th
/// connection drew `ids[k]` at step `steps[k]` of a run of the counter, and
/// the connections drew in that order, their ids are strictly increasing, so
/// no two connections, and no two subscriptions keyed by them, share an id.
pub proof fn lemma_connection_ids_distinct(h: Seq<SessionIds>, steps: Seq<int>, ids: Seq<usize>)
    requires
        counter_run(h),
        steps.len() == ids.len(),
        forall|k: int| 0 <= k < steps.len() ==> 0 <= #[trigger] steps[k] && steps[k] + 1 < h.len(),
        forall|k: int| 0 <= k < steps.len() ==> issued(h[#[trigger] steps[k]], h[steps[k] + 1], ids[k]),
        forall|k1: int, k2: int| 0 <= k1 < k2 < steps.len() ==> #[trigger] steps[k1] < #[trigger] steps[k2],
    ensures
        forall|k1: int, k2: int| 0 <= k1 < k2 < ids.len() ==> #[trigger] ids[k1] < #[trigger] ids[k2],
{
    assert forall|k1: int, k2: int| 0 <= k1 < k2 < ids.len() implies #[trigger] ids[k1] < #[trigger] ids[k2] by {
        assert(steps[k1] < steps[k2]);
        assert(issued(h[steps[k1]], h[steps[k1] + 1], ids[k1]));
        assert(issued(h[steps[k2]], h[steps[k2] + 1], ids[k2]));
        lemma_run_monotone(h, steps[k1] + 1, steps[k2]);
    }
}

/// A registered subscription, whether it has been told to stop, and the
/// handle that the server uses to feed its transmitter.
pub struct Registered<H> {
    pub sub: ClientSubscription,
    pub stopped: bool,
    pub handle: H,
}

/// The subscriptions of the server, keyed by session id.
pub struct ClientManager<H> {
    pub clients: Vec<Registered<H>>,
}

/// The session ids held by a list of registered subscriptions.
pub open spec fn ids_of<H>(s: Seq<Registered<H>>) -> Set<usize> {
    Set::new(|id: usize| exists|i: int| 0 <= i < s.len() && #[trigger] s[i].sub.unique_id == id)
}

/// No two entries share a session id.
pub open spec fn unique_ids<H>(s: Seq<Registered<H>>) -> bool {
    forall|i: int, j: int|
        0 <= i < s.len() && 0 <= j < s.len() && i != j ==> #[trigger] s[i].sub.unique_id
            != #[trigger] s[j].sub.unique_id
}

/// The ids of the entries not told to stop, in order of registration.
pub open spec fn active_ids<H>(s: Seq<Registered<H>>) -> Seq<usize>
    decreases s.len(),
{
    if s.len() == 0 {
        Seq::empty()
    } else {
        let rest = active_ids(s.drop_last());
        if s.last().stopped {
            rest
        } else {
            rest.push(s.last().sub.unique_id)
        }
    }
}

proof fn lemma_active_in_ids<H>(s: Seq<Registered<H>>, k: int)
    requires
        0 <= k < active_ids(s).len(),
    ensures
        ids_of(s).contains(active_ids(s)[k]),
        exists|i: int| 0 <= i < s.len() && !s[i].stopped && s[i].sub.unique_id == active_ids(s)[k],
    decreases s.len(),
{
    let rest = active_ids(s.drop_last());
    if k < rest.len() {
        lemma_active_in_ids(s.drop_last(), k);
        let i = choose|i: int|
            0 <= i < s.drop_last().len() && !s.drop_last()[i].stopped
                && s.drop_last()[i].sub.unique_id == active_ids(s)[k];
        assert(s[i] == s.drop_last()[i]);
        assert(s[i].sub.unique_id == active_ids(s)[k]);
    } else {
        assert(s[s.len() - 1].sub.unique_id == active_ids(s)[k]);
    }
}

proof fn lemma_none_active<H>(s: Seq<Registered<H>>)
    requires
        forall|i: int| 0 <= i < s.len() ==> #[trigger] s[i].stopped,
    ensures
        active_ids(s).len() == 0,
    decreases s.len(),
{
    if s.len() > 0 {
        lemma_none_active(s.drop_last());
    }
}

impl<H> ClientManager<H> {
    pub open spec fn wf(&self) -> bool {
        unique_ids(self.clients@)
    }

    pub open spec fn ids(&self) -> Set<usize> {
        ids_of(self.clients@)
    }

    pub fn new() -> (r: ClientManager<H>)
        ensures
            r.wf(),
            r.clients@.len() == 0,
            r.ids() == Set::<usize>::empty(),
    {
        let r = ClientManager { clients: Vec::new() };
        assert(r.ids() =~= Set::<usize>::empty());
        r
    }

    fn index_of(&self, unique_id: usize) -> (r: Option<usize>)
        ensures
            r is None <==> !self.ids().contains(unique_id),
            r matches Some(i) ==> i < self.clients@.len() && self.clients@[i as int].sub.unique_id
                == unique_id,
    {
        let mut i: usize = 0;
        while i < self.clients.len()
            invariant
                i <= self.clients@.len(),
                forall|k: int| 0 <= k < i ==> #[trigger] self.clients@[k].sub.unique_id != unique_id,
            decreases self.clients@.len() - i,
        {
            if self.clients[i].sub.unique_id == unique_id {
                return Some(i);
            }
            i = i + 1;
        }
        None
    }

    /// Whether a subscription with this session id is registered.
    pub fn id_exists(&self, unique_id: usize) -> (r: bool)
        ensures
            r == self.ids().contains(unique_id),
    {
        self.index_of(unique_id).is_some()
    }

    /// Registers a subscription; refused where its session id is taken.
    pub fn add_client(&mut self, client: ClientSubscription, handle: H) -> (r: Result<
        (),
        QuoteError,
    >)
        requires
            old(self).wf(),
        ensures
            final(self).wf(),
            old(self).ids().contains(client.unique_id) ==> (r matches Err(QuoteError::ValueError(_))
                && final(self).clients@ == old(self).clients@),
            !old(self).ids().contains(client.unique_id) ==> r is Ok && final(self).clients@ == old(self).clients@.push(Registered { sub: client, stopped: false, handle }),
            final(self).ids() == old(self).ids().insert(client.unique_id),
    {
        if self.id_exists(client.unique_id) {
            assert(self.ids().insert(client.unique_id) =~= self.ids());
            return Err(QuoteError::value_err("Клиент уже существует"));
        }
        let ghost id = client.unique_id;
        self.clients.push(Registered { sub: client, stopped: false, handle });
        proof {
            let s = self.clients@;
            assert(s.last().sub.unique_id == id);
            assert forall|x: usize| #[trigger] self.ids().contains(x) == old(self).ids().insert(
                id,
            ).contains(x) by {
                if old(self).ids().contains(x) {
                    let i = choose|i: int|
                        0 <= i < old(self).clients@.len() && #[trigger] old(self).clients@[i].sub.unique_id == x;
                    assert(s[i] == old(self).clients@[i]);
                }
                if self.ids().contains(x) && x != id {
                    let i = choose|i: int| 0 <= i < s.len() && #[trigger] s[i].sub.unique_id == x;
                    assert(i < s.len() - 1);
                    assert(s[i] == old(self).clients@[i]);
                }
                if x == id {
                    assert(s[s.len() - 1].sub.unique_id == x);
                }
            }
            assert(self.ids() =~= old(self).ids().insert(id));
        }
        Ok(())
    }

    /// Takes a subscription out of the registry; refused where none has this id.
    pub fn remove_client(&mut self, unique_id: usize) -> (r: Result<Registered<H>, QuoteError>)
        requires
            old(self).wf(),
        ensures
            final(self).wf(),
            final(self).ids() == old(self).ids().remove(unique_id),
            !old(self).ids().contains(unique_id) ==> (r matches Err(QuoteError::CommandError(_))
                && final(self).clients@ == old(self).clients@),
            old(self).ids().contains(unique_id) ==> r is Ok,
            r matches Ok(e) ==> e.sub.unique_id == unique_id && exists|i: int|
                0 <= i < old(self).clients@.len() && old(self).clients@[i] == e && final(self).clients@ == old(self).clients@.remove(i),
    {
        match self.index_of(unique_id) {
            None => {
                assert(self.ids().remove(unique_id) =~= self.ids());
                Err(QuoteError::command_err("задачи отсутствуют"))
            },
            Some(i) => {
                let ghost s0 = self.clients@;
                let e = self.clients.remove(i);
                proof {
                    let s = self.clients@;
                    assert(s =~= s0.remove(i as int));
                    assert forall|x: usize| #[trigger] self.ids().contains(x) == ids_of(
                        s0,
                    ).remove(unique_id).contains(x) by {
                        if self.ids().contains(x) {
                            let k = choose|k: int| 0 <= k < s.len() && #[trigger] s[k].sub.unique_id == x;
                            if k < i {
                                assert(s[k] == s0[k]);
                            } else {
                                assert(s[k] == s0[k + 1]);
                            }
                        }
                        if ids_of(s0).remove(unique_id).contains(x) {
                            let k = choose|k: int| 0 <= k < s0.len() && #[trigger] s0[k].sub.unique_id == x;
                            assert(k != i);
                            if k < i {
                                assert(s[k] == s0[k]);
                            } else {
                                assert(s[k - 1] == s0[k]);
                            }
                        }
                    }
                    assert(self.ids() =~= ids_of(s0).remove(unique_id));
                    assert forall|a: int, b: int|
                        0 <= a < s.len() && 0 <= b < s.len() && a != b implies #[trigger] s[a].sub.unique_id
                        != #[trigger] s[b].sub.unique_id by {
                        let a0 = if a < i { a } else { a + 1 };
                        let b0 = if b < i { b } else { b + 1 };
                        assert(s[a] == s0[a0]);
                        assert(s[b] == s0[b0]);
                    }
                }
                Ok(e)
            },
        }
    }

    /// Tells every registered subscription to stop, as the server does when it shuts down.
    pub fn stop_all(&mut self)
        requires
            old(self).wf(),
        ensures
            final(self).wf(),
            final(self).clients@.len() == old(self).clients@.len(),
            forall|i: int|
                0 <= i < final(self).clients@.len() ==> (#[trigger] final(self).clients@[i]).stopped
                    && final(self).clients@[i].sub == old(self).clients@[i].sub
                    && final(self).clients@[i].handle == old(self).clients@[i].handle,
            final(self).ids() == old(self).ids(),
            active_ids(final(self).clients@).len() == 0,
    {
        let mut i: usize = 0;
        while i < self.clients.len()
            invariant
                self.clients@.len() == old(self).clients@.len(),
                i <= self.clients@.len(),
                forall|k: int|
                    0 <= k < self.clients@.len() ==> (#[trigger] self.clients@[k]).sub == old(self).clients@[k].sub && self.clients@[k].handle == old(self).clients@[k].handle,
                forall|k: int| 0 <= k < i ==> (#[trigger] self.clients@[k]).stopped,
            decreases self.clients@.len() - i,
        {
            let mut e = self.clients.remove(i);
            e.stopped = true;
            self.clients.insert(i, e);
            i = i + 1;
        }
        proof {
            assert(self.ids() =~= old(self).ids()) by {
                assert forall|x: usize| #[trigger] self.ids().contains(x) == old(self).ids().contains(x) by {
                    if self.ids().contains(x) {
                        let k = choose|k: int| 0 <= k < self.clients@.len() && #[trigger] self.clients@[k].sub.unique_id == x;
                        assert(old(self).clients@[k].sub.unique_id == x);
                    }
                    if old(self).ids().contains(x) {
                        let k = choose|k: int| 0 <= k < old(self).clients@.len() && #[trigger] old(self).clients@[k].sub.unique_id == x;
                        assert(self.clients@[k].sub.unique_id == x);
                    }
                }
            }
            lemma_none_active(self.clients@);
        }
    }

    /// The session ids of the subscriptions not told to stop, in order of registration.
    pub fn snapshot_active(&self) -> (r: Vec<usize>)
        ensures
            r@ == active_ids(self.clients@),
            forall|k: int| 0 <= k < r@.len() ==> self.ids().contains(#[trigger] r@[k]),
    {
        let mut r: Vec<usize> = Vec::new();
        let mut i: usize = 0;
        while i < self.clients.len()
            invariant
                i <= self.clients@.len(),
                r@ == active_ids(self.clients@.subrange(0, i as int)),
            decreases self.clients@.len() - i,
        {
            assert(self.clients@.subrange(0, i + 1).drop_last() =~= self.clients@.subrange(0, i as int));
            if !self.clients[i].stopped {
                r.push(self.clients[i].sub.unique_id);
            }
            i = i + 1;
        }
        assert(self.clients@.subrange(0, self.clients@.len() as int) =~= self.clients@);
        proof {
            assert forall|k: int| 0 <= k < r@.len() implies self.ids().contains(#[trigger] r@[k]) by {
                lemma_active_in_ids(self.clients@, k);
            }
        }
        r
    }

    /// The handle of the subscription with this session id, if one is registered.
    pub fn handle(&self, unique_id: usize) -> (r: Option<&H>)
        ensures
            r is None <==> !self.ids().contains(unique_id),
            r matches Some(h) ==> exists|i: int|
                0 <= i < self.clients@.len() && self.clients@[i].sub.unique_id == unique_id
                    && self.clients@[i].handle == *h,
    {
        match self.index_of(unique_id) {
            None => None,
            Some(i) => Some(&self.clients[i].handle),
        }
    }

    /// Starts a session's subscription: it is registered unless its id is
    /// taken, in which case the earlier one stays. The reply is the same either way.
    pub fn start_session(&mut self, client: ClientSubscription, handle: H) -> (r: ServerResponse)
        requires
            old(self).wf(),
        ensures
            final(self).wf(),
            response_text(r) == "OK|stream started"@,
            final(self).ids() == old(self).ids().insert(client.unique_id),
            old(self).ids().contains(client.unique_id) ==> final(self).clients@ == old(self).clients@,
            !old(self).ids().contains(client.unique_id) ==> final(self).clients@ == old(self).clients@.push(
                Registered { sub: client, stopped: false, handle },
            ),
    {
        let _ = self.add_client(client, handle);
        let r = ServerResponse::ok("stream started");
        proof {
            reveal_strlit("stream started");
            reveal_strlit("OK|stream started");
            reveal_strlit("OK|");
            assert("OK|"@ + "stream started"@ =~= "OK|stream started"@);
        }
        r
    }

    /// Cancels a session's subscription, if it has one, and hands back what
    /// was registered so that its transmitter can be stopped. The reply is
    /// `OK|canceled` whether or not there was one.
    pub fn cancel_session(&mut self, unique_id: usize) -> (r: (ServerResponse, Option<Registered<H>>))
        requires
            old(self).wf(),
        ensures
            final(self).wf(),
            response_text(r.0) == "OK|canceled"@,
            final(self).ids() == old(self).ids().remove(unique_id),
            !final(self).ids().contains(unique_id),
            r.1 is Some <==> old(self).ids().contains(unique_id),
            !old(self).ids().contains(unique_id) ==> final(self).clients@ == old(self).clients@,
            r.1 matches Some(e) ==> e.sub.unique_id == unique_id && exists|i: int|
                0 <= i < old(self).clients@.len() && old(self).clients@[i] == e
                    && final(self).clients@ == old(self).clients@.remove(i),
    {
        let removed = match self.remove_client(unique_id) {
            Ok(e) => Some(e),
            Err(_) => None,
        };
        let r = ServerResponse::ok("canceled");
        proof {
            reveal_strlit("canceled");
            reveal_strlit("OK|canceled");
            reveal_strlit("OK|");
            assert("OK|"@ + "canceled"@ =~= "OK|canceled"@);
        }
        (r, removed)
    }
}

} // verus!
