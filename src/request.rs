use vstd::prelude::*;

verus! {

/// Where one request stands.
#[derive(Clone, Copy, Debug, PartialEq, Eq, Structural)]
pub enum RequestPhase {
    /// The interaction runs; the cancellation endpoint is not exported yet.
    Pending,
    /// The interaction runs and the client can close the request.
    Registered,
    /// The endpoint could not be exported: the request runs without cancel support.
    Unguarded,
    /// The one reply has been produced.
    Resolved,
}

/// What can happen to a request.
#[derive(Clone, Copy, Debug, PartialEq, Eq, Structural)]
pub enum RequestEvent {
    /// The cancellation endpoint was exported under the request's token.
    Exported,
    /// Exporting the cancellation endpoint failed.
    ExportFailed,
    /// The client called `Close` on the endpoint.
    CloseRequested,
    /// The interaction produced its reply.
    InteractionDone,
}

/// Which reply an event produces.
#[derive(Clone, Copy, Debug, PartialEq, Eq, Structural)]
pub enum Reply {
    /// No reply now.
    Nothing,
    /// Reply with what the interaction produced.
    Completed,
    /// Reply cancelled, with an empty payload.
    Cancelled,
}

/// What the caller does after an event.
#[derive(Clone, Copy, Debug, PartialEq, Eq, Structural)]
pub struct RequestAction {
    pub reply: Reply,
    /// Remove the cancellation endpoint.
    pub unregister: bool,
    /// Ask the presentation layer to tear the interaction down.
    pub notify_cancel: bool,
}

/// The phase after `e` happens in phase `p`.
pub open spec fn next_phase(p: RequestPhase, e: RequestEvent) -> RequestPhase {
    match (p, e) {
        (RequestPhase::Resolved, _) => RequestPhase::Resolved,
        (_, RequestEvent::InteractionDone) => RequestPhase::Resolved,
        (RequestPhase::Registered, RequestEvent::CloseRequested) => RequestPhase::Resolved,
        (RequestPhase::Pending, RequestEvent::Exported) => RequestPhase::Registered,
        (RequestPhase::Pending, RequestEvent::ExportFailed) => RequestPhase::Unguarded,
        (q, _) => q,
    }
}

/// The reply that `e` produces in phase `p`.
pub open spec fn reply_of(p: RequestPhase, e: RequestEvent) -> Reply {
    match (p, e) {
        (RequestPhase::Resolved, _) => Reply::Nothing,
        (_, RequestEvent::InteractionDone) => Reply::Completed,
        (RequestPhase::Registered, RequestEvent::CloseRequested) => Reply::Cancelled,
        _ => Reply::Nothing,
    }
}

/// The action for `e` in phase `p`: reply as `reply_of` says, remove the
/// endpoint when a registered request resolves, and tell the presentation
/// layer to stop when the reply is a cancellation.
pub open spec fn action_of(p: RequestPhase, e: RequestEvent) -> RequestAction {
    RequestAction {
        reply: reply_of(p, e),
        unregister: p == RequestPhase::Registered && next_phase(p, e) == RequestPhase::Resolved,
        notify_cancel: reply_of(p, e) == Reply::Cancelled,
    }
}

/// Decides what `e` does to a request in phase `p`.
pub fn transition(p: RequestPhase, e: RequestEvent) -> (r: (RequestPhase, RequestAction))
    ensures
        r.0 == next_phase(p, e),
        r.1 == action_of(p, e),
{
    let next = match p {
        RequestPhase::Resolved => RequestPhase::Resolved,
        _ => match e {
            RequestEvent::InteractionDone => RequestPhase::Resolved,
            RequestEvent::CloseRequested => match p {
                RequestPhase::Registered => RequestPhase::Resolved,
                _ => p,
            },
            RequestEvent::Exported => match p {
                RequestPhase::Pending => RequestPhase::Registered,
                _ => p,
            },
            RequestEvent::ExportFailed => match p {
                RequestPhase::Pending => RequestPhase::Unguarded,
                _ => p,
            },
        },
    };
    let reply = match p {
        RequestPhase::Resolved => Reply::Nothing,
        _ => match e {
            RequestEvent::InteractionDone => Reply::Completed,
            RequestEvent::CloseRequested => match p {
                RequestPhase::Registered => Reply::Cancelled,
                _ => Reply::Nothing,
            },
            _ => Reply::Nothing,
        },
    };
    let registered = match p {
        RequestPhase::Registered => true,
        _ => false,
    };
    let resolves = match next {
        RequestPhase::Resolved => true,
        _ => false,
    };
    let cancels = match reply {
        Reply::Cancelled => true,
        _ => false,
    };
    (next, RequestAction { reply, unregister: registered && resolves, notify_cancel: cancels })
}

/// The phase after the events `es`, starting in phase `p`.
pub open spec fn phase_after(p: RequestPhase, es: Seq<RequestEvent>) -> RequestPhase
    decreases es.len(),
{
    if es.len() == 0 {
        p
    } else {
        next_phase(phase_after(p, es.drop_last()), es.last())
    }
}

/// The replies that the events `es` produce, in order, starting in phase `p`.
pub open spec fn replies(p: RequestPhase, es: Seq<RequestEvent>) -> Seq<Reply>
    decreases es.len(),
{
    if es.len() == 0 {
        Seq::empty()
    } else {
        let before = replies(p, es.drop_last());
        let r = reply_of(phase_after(p, es.drop_last()), es.last());
        if r == Reply::Nothing {
            before
        } else {
            before.push(r)
        }
    }
}

proof fn lemma_replies_resolved(es: Seq<RequestEvent>)
    ensures
        replies(RequestPhase::Pending, es).len() == (if phase_after(RequestPhase::Pending, es)
            == RequestPhase::Resolved {
            1int
        } else {
            0int
        }),
        es.contains(RequestEvent::InteractionDone) ==> phase_after(RequestPhase::Pending, es) == RequestPhase::Resolved,
    decreases es.len(),
{
    if es.len() > 0 {
        let u = es.drop_last();
        lemma_replies_resolved(u);
        if es.contains(RequestEvent::InteractionDone) && es.last() != RequestEvent::InteractionDone {
            let k = choose|k: int| 0 <= k < es.len() && es[k] == RequestEvent::InteractionDone;
            assert(u[k] == RequestEvent::InteractionDone);
        }
    }
}

/// Every request, whatever its events and in whatever order they come,
/// replies at most once, and exactly once as soon as its interaction is done.
pub proof fn one_reply_per_request(es: Seq<RequestEvent>)
    ensures
        replies(RequestPhase::Pending, es).len() <= 1,
        es.contains(RequestEvent::InteractionDone) ==> replies(RequestPhase::Pending, es).len() == 1,
{
    lemma_replies_resolved(es);
}

/// A close that reaches a registered request before its interaction is done
/// replies cancelled, and the interaction's later result is dropped; a close
/// after the reply changes nothing.
pub proof fn close_races_completion(es: Seq<RequestEvent>)
    requires
        phase_after(RequestPhase::Pending, es) == RequestPhase::Registered,
    ensures
        replies(RequestPhase::Pending, es.push(RequestEvent::CloseRequested).push(RequestEvent::InteractionDone))
            == replies(RequestPhase::Pending, es).push(Reply::Cancelled),
        replies(RequestPhase::Pending, es.push(RequestEvent::InteractionDone).push(RequestEvent::CloseRequested))
            == replies(RequestPhase::Pending, es).push(Reply::Completed),
{
    let a = es.push(RequestEvent::CloseRequested);
    let b = es.push(RequestEvent::InteractionDone);
    assert(a.push(RequestEvent::InteractionDone).drop_last() =~= a);
    assert(a.drop_last() =~= es);
    assert(b.push(RequestEvent::CloseRequested).drop_last() =~= b);
    assert(b.drop_last() =~= es);
    assert(phase_after(RequestPhase::Pending, a) == RequestPhase::Resolved);
    assert(replies(RequestPhase::Pending, a) == replies(RequestPhase::Pending, es).push(Reply::Cancelled));
    assert(phase_after(RequestPhase::Pending, b) == RequestPhase::Resolved);
    assert(replies(RequestPhase::Pending, b) == replies(RequestPhase::Pending, es).push(Reply::Completed));
}

/// The requests in flight, each under the token that its client chose.
pub struct RequestRegistry {
    tokens: Vec<String>,
    phases: Vec<RequestPhase>,
}

impl RequestRegistry {
    /// Tokens are distinct, and resolved requests are gone.
    pub closed spec fn wf(&self) -> bool {
        &&& self.tokens@.len() == self.phases@.len()
        &&& forall|i: int, j: int|
            0 <= i < j < self.tokens@.len() ==> (#[trigger] self.tokens@[i])@ != (#[trigger] self.tokens@[j])@
        &&& forall|i: int| 0 <= i < self.phases@.len() ==> #[trigger] self.phases@[i] != RequestPhase::Resolved
    }

    /// A request is in flight under `t`.
    pub closed spec fn has(&self, t: Seq<char>) -> bool {
        exists|i: int| 0 <= i < self.tokens@.len() && (#[trigger] self.tokens@[i])@ == t
    }

    /// The position of the request under `t`.
    pub closed spec fn index_of(&self, t: Seq<char>) -> int {
        choose|i: int| 0 <= i < self.tokens@.len() && (#[trigger] self.tokens@[i])@ == t
    }

    /// The phase of the request under token `t`, if one is in flight.
    pub closed spec fn phase_of(&self, t: Seq<char>) -> Option<RequestPhase> {
        if self.has(t) {
            Some(self.phases@[self.index_of(t)])
        } else {
            None
        }
    }

    proof fn lemma_index(&self, i: int)
        requires
            self.wf(),
            0 <= i < self.tokens@.len(),
        ensures
            self.has(self.tokens@[i]@),
            self.index_of(self.tokens@[i]@) == i,
            self.phase_of(self.tokens@[i]@) == Some(self.phases@[i]),
    {
        let t = self.tokens@[i]@;
        assert(self.tokens@[i]@ == t);
        let j = self.index_of(t);
        if j < i {
            assert(self.tokens@[j]@ != self.tokens@[i]@);
        } else if i < j {
            assert(self.tokens@[i]@ != self.tokens@[j]@);
        }
    }

    /// An empty registry.
    pub fn new() -> (r: Self)
        ensures
            r.wf(),
            forall|t: Seq<char>| r.phase_of(t) is None,
    {
        RequestRegistry { tokens: Vec::new(), phases: Vec::new() }
    }

    fn find(&self, token: &String) -> (r: Option<usize>)
        requires
            self.wf(),
        ensures
            r is None <==> !self.has(token@),
            r matches Some(i) ==> i < self.tokens@.len() && self.tokens@[i as int]@ == token@ && self.index_of(token@) == i,
    {
        let mut i: usize = 0;
        while i < self.tokens.len()
            invariant
                self.wf(),
                i <= self.tokens@.len(),
                forall|j: int| 0 <= j < i ==> (#[trigger] self.tokens@[j])@ != token@,
            decreases self.tokens@.len() - i,
        {
            if self.tokens[i] == *token {
                proof { self.lemma_index(i as int); }
                return Some(i);
            }
            i = i + 1;
        }
        None
    }

    /// Whether a request is in flight under `token`.
    pub fn contains(&self, token: &String) -> (r: bool)
        requires
            self.wf(),
        ensures
            r == self.phase_of(token@) is Some,
    {
        self.find(token).is_some()
    }

    /// Starts tracking a request under `token`; refused while another
    /// request holds the same token.
    pub fn begin(&mut self, token: String) -> (ok: bool)
        requires
            old(self).wf(),
        ensures
            final(self).wf(),
            ok == old(self).phase_of(token@) is None,
            ok ==> final(self).phase_of(token@) == Some(RequestPhase::Pending),
            forall|t: Seq<char>| t != token@ ==> final(self).phase_of(t) == old(self).phase_of(t),
            !ok ==> final(self).phase_of(token@) == old(self).phase_of(token@),
    {
        if self.find(&token).is_some() {
            return false;
        }
        let ghost before = *self;
        let ghost tok = token@;
        self.tokens.push(token);
        self.phases.push(RequestPhase::Pending);
        let ghost n = before.tokens@.len() as int;
        assert(self.wf()) by {
            assert forall|i: int, j: int| 0 <= i < j < self.tokens@.len() implies (#[trigger] self.tokens@[i])@
                != (#[trigger] self.tokens@[j])@ by {
                if j == n {
                    assert(self.tokens@[i] == before.tokens@[i]);
                }
            }
        }
        proof {
            self.lemma_index(n);
            assert forall|t: Seq<char>| t != tok implies self.phase_of(t) == before.phase_of(t) by {
                if before.has(t) {
                    let i = before.index_of(t);
                    before.lemma_index(i);
                    assert(self.tokens@[i] == before.tokens@[i]);
                    self.lemma_index(i);
                }
                if self.has(t) {
                    let i = self.index_of(t);
                    assert(i < n);
                    assert(self.tokens@[i] == before.tokens@[i]);
                    before.lemma_index(i);
                }
            }
        }
        true
    }

    /// Delivers `e` to the request under `token`: its phase moves on as
    /// `next_phase` says, it leaves the registry once resolved, and no other
    /// request is touched. Nothing happens when no request holds `token`.
    pub fn deliver(&mut self, token: &String, e: RequestEvent) -> (r: Option<RequestAction>)
        requires
            old(self).wf(),
        ensures
            final(self).wf(),
            delivered(*old(self), *final(self), token@, e),
            r matches Some(a) ==> old(self).phase_of(token@) matches Some(p) && a == action_of(p, e),
            r is None <==> old(self).phase_of(token@) is None,
    {
        let ghost before = *self;
        let ghost tok = token@;
        let i = match self.find(token) {
            Some(i) => i,
            None => {
                return None;
            },
        };
        proof { before.lemma_index(i as int); }
        let p = self.phases[i];
        let (next, action) = transition(p, e);
        match next {
            RequestPhase::Resolved => {
                self.tokens.remove(i);
                self.phases.remove(i);
                assert(self.wf()) by {
                    assert forall|a: int, b: int| 0 <= a < b < self.tokens@.len() implies (#[trigger] self.tokens@[a])@
                        != (#[trigger] self.tokens@[b])@ by {
                        let a0 = if a < i { a } else { a + 1 };
                        let b0 = if b < i { b } else { b + 1 };
                        assert(self.tokens@[a] == before.tokens@[a0]);
                        assert(self.tokens@[b] == before.tokens@[b0]);
                    }
                    assert forall|a: int| 0 <= a < self.phases@.len() implies #[trigger] self.phases@[a]
                        != RequestPhase::Resolved by {
                        let a0 = if a < i { a } else { a + 1 };
                        assert(self.phases@[a] == before.phases@[a0]);
                    }
                }
                proof {
                    assert forall|t: Seq<char>| t != tok implies self.phase_of(t) == before.phase_of(t) by {
                        if before.has(t) {
                            let k = before.index_of(t);
                            before.lemma_index(k);
                            assert(k != i);
                            let k2 = if k < i { k } else { k - 1 };
                            assert(self.tokens@[k2] == before.tokens@[k]);
                            assert(self.phases@[k2] == before.phases@[k]);
                            self.lemma_index(k2);
                        }
                        if self.has(t) {
                            let k = self.index_of(t);
                            let k0 = if k < i { k } else { k + 1 };
                            assert(self.tokens@[k] == before.tokens@[k0]);
                            before.lemma_index(k0);
                        }
                    }
                    if self.has(tok) {
                        let k = self.index_of(tok);
                        let k0 = if k < i { k } else { k + 1 };
                        assert(self.tokens@[k] == before.tokens@[k0]);
                        assert(before.tokens@[k0]@ != before.tokens@[i as int]@);
                    }
                }
            },
            _ => {
                self.phases.set(i, next);
                proof {
                    self.lemma_index(i as int);
                    assert forall|t: Seq<char>| t != tok implies self.phase_of(t) == before.phase_of(t) by {
                        if before.has(t) {
                            let k = before.index_of(t);
                            before.lemma_index(k);
                            self.lemma_index(k);
                        }
                        if self.has(t) {
                            let k = self.index_of(t);
                            self.lemma_index(k);
                            before.lemma_index(k);
                        }
                    }
                }
            },
        }
        Some(action)
    }
}

/// `after` is `before` once `e` was delivered under `token`.
pub open spec fn delivered(before: RequestRegistry, after: RequestRegistry, token: Seq<char>, e: RequestEvent) -> bool {
    &&& forall|t: Seq<char>| t != token ==> #[trigger] after.phase_of(t) == before.phase_of(t)
    &&& after.phase_of(token) == match before.phase_of(token) {
        None => None,
        Some(p) => if next_phase(p, e) == RequestPhase::Resolved {
            None
        } else {
            Some(next_phase(p, e))
        },
    }
}

/// Requests under distinct tokens are independent: whatever happens to one,
/// closing it included, leaves the other's phase, and so its reply, as it was.
pub proof fn requests_independent(
    before: RequestRegistry,
    after: RequestRegistry,
    a: Seq<char>,
    b: Seq<char>,
    e: RequestEvent,
)
    requires
        a != b,
        delivered(before, after, a, e),
    ensures
        after.phase_of(b) == before.phase_of(b),
{
}

} // verus!
