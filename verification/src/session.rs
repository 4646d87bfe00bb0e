//! The session manager: one object owning every registry.
//!
//! It tracks the named connections, the subscriptions and responders of each,
//! and the cache of resolved key-value buckets.  Each operation that involves
//! the transport takes the transport's reported outcome as an argument and is
//! verified for every possible report; the admission decisions (duplicate or
//! missing identifiers) are the manager's own.

use vstd::prelude::*;
use crate::errors::{
    is_bucket_access, is_client_not_found, is_duplicate_client, is_duplicate_subscription,
    is_key_not_found, is_subscription_not_found, is_transport, NatsError,
};
use crate::events::{
    ConnectOutcome, ExitReason, PollAction, PollActionView, PollEvent, PollEventView,
    PublishOutcome, RequestOutcome, SubscribeOutcome,
};
use crate::kv::KvCache;
use crate::poll::sub_step;
use crate::subs::{lemma_index_unique, SubEntry, SubKind, SubTable, SubView};
use crate::text::decode_text;
use vstd::utf8::{decode_utf8, valid_utf8};

verus! {

pub open spec fn distinct_ids(s: Seq<String>) -> bool {
    forall|i: int, j: int| 0 <= i < j < s.len() ==> (#[trigger] s[i])@ != (#[trigger] s[j])@
}

pub open spec fn seq_contains_id(s: Seq<String>, id: Seq<char>) -> bool {
    exists|i: int| 0 <= i < s.len() && (#[trigger] s[i])@ == id
}

/// Appending a fresh identifier keeps the identifiers distinct and every
/// other identifier's membership as it was.
pub proof fn lemma_ids_push(s: Seq<String>, id: String)
    requires
        distinct_ids(s),
        !seq_contains_id(s, id@),
    ensures
        distinct_ids(s.push(id)),
        seq_contains_id(s.push(id), id@),
        forall|x: Seq<char>|
            x != id@ ==> (seq_contains_id(s.push(id), x) <==> seq_contains_id(s, x)),
{
    let t = s.push(id);
    assert(t[s.len() as int] == id);
    assert forall|i: int, j: int| 0 <= i < j < t.len()
        implies (#[trigger] t[i])@ != (#[trigger] t[j])@ by {
        if j < s.len() {
            assert(t[i] == s[i] && t[j] == s[j]);
        } else {
            assert(t[i] == s[i] && t[j] == id);
            assert(s[i]@ != id@);
        }
    };
    assert forall|x: Seq<char>| x != id@ && seq_contains_id(t, x)
        implies seq_contains_id(s, x) by {
        let i = choose|i: int| 0 <= i < t.len() && (#[trigger] t[i])@ == x;
        assert(i < s.len()) by {
            if i == s.len() {
                assert(t[i] == id);
            }
        };
        assert(t[i] == s[i]);
    };
    assert forall|x: Seq<char>| seq_contains_id(s, x) implies seq_contains_id(t, x) by {
        let i = choose|i: int| 0 <= i < s.len() && (#[trigger] s[i])@ == x;
        assert(t[i] == s[i]);
    };
}

/// Removing one identifier removes its membership and no other's.
pub proof fn lemma_ids_remove(s: Seq<String>, i: int)
    requires
        distinct_ids(s),
        0 <= i < s.len(),
    ensures
        distinct_ids(s.remove(i)),
        !seq_contains_id(s.remove(i), s[i]@),
        forall|x: Seq<char>|
            x != s[i]@ ==> (seq_contains_id(s.remove(i), x) <==> seq_contains_id(s, x)),
{
    let t = s.remove(i);
    s.remove_ensures(i);
    assert forall|a: int, b: int| 0 <= a < b < t.len()
        implies (#[trigger] t[a])@ != (#[trigger] t[b])@ by {
        let a0: int = if a < i { a } else { a + 1 };
        let b0: int = if b < i { b } else { b + 1 };
        assert(t[a] == s[a0] && t[b] == s[b0]);
        assert(s[a0]@ != s[b0]@);
    };
    assert forall|j: int| 0 <= j < t.len() implies (#[trigger] t[j])@ != s[i]@ by {
        let j0: int = if j < i { j } else { j + 1 };
        assert(t[j] == s[j0]);
        if j0 < i {
            assert(s[j0]@ != s[i]@);
        } else {
            assert(s[i]@ != s[j0]@);
        }
    };
    assert forall|x: Seq<char>| x != s[i]@ && seq_contains_id(t, x)
        implies seq_contains_id(s, x) by {
        let j = choose|j: int| 0 <= j < t.len() && (#[trigger] t[j])@ == x;
        let j0: int = if j < i { j } else { j + 1 };
        assert(t[j] == s[j0]);
    };
    assert forall|x: Seq<char>| x != s[i]@ && seq_contains_id(s, x)
        implies seq_contains_id(t, x) by {
        let j0 = choose|j0: int| 0 <= j0 < s.len() && (#[trigger] s[j0])@ == x;
        assert(j0 != i);
        let j: int = if j0 < i { j0 } else { j0 - 1 };
        assert(t[j] == s[j0]);
    };
}

/// The session manager: connection registry, subscription registry, and the
/// key-value handle cache, all under one owner.
pub struct SessionManager {
    pub clients: Vec<String>,
    pub subs: SubTable,
    pub kv: KvCache,
}

impl SessionManager {
    /// Identifiers are unique per registry, and no subscription or cached
    /// bucket outlives its owning connection.
    pub open spec fn wf(self) -> bool {
        &&& distinct_ids(self.clients@)
        &&& self.subs.wf()
        &&& self.kv.wf()
        &&& forall|c: Seq<char>, s: Seq<char>|
            self.subs.contains_key(c, s) ==> self.has_client(c)
        &&& forall|c: Seq<char>, b: Seq<char>| self.kv.contains(c, b) ==> self.has_client(c)
    }

    /// A connection under this identifier is registered.
    pub open spec fn has_client(self, id: Seq<char>) -> bool {
        seq_contains_id(self.clients@, id)
    }

    /// A subscription or responder under this key is registered.
    pub open spec fn has_sub(self, cid: Seq<char>, sid: Seq<char>) -> bool {
        self.subs.contains_key(cid, sid)
    }

    /// The registered entry under this key.
    pub open spec fn sub_view(self, cid: Seq<char>, sid: Seq<char>) -> SubView {
        self.subs.at(cid, sid)
    }

    /// The entry under this key is registered and its liveness flag stands.
    pub open spec fn sub_live(self, cid: Seq<char>, sid: Seq<char>) -> bool {
        self.subs.live(cid, sid)
    }

    /// Some entry of this connection is still live.
    pub open spec fn has_live_sub(self, cid: Seq<char>) -> bool {
        exists|s: Seq<char>| self.sub_live(cid, s)
    }

    /// This connection's handle for this bucket has been resolved and cached.
    pub open spec fn kv_cached(self, cid: Seq<char>, bucket: Seq<char>) -> bool {
        self.kv.contains(cid, bucket)
    }

    pub fn new() -> (r: SessionManager)
        ensures
            r.wf(),
            forall|id: Seq<char>| !r.has_client(id),
            forall|c: Seq<char>, s: Seq<char>| !r.has_sub(c, s),
            forall|c: Seq<char>, b: Seq<char>| !r.kv_cached(c, b),
    {
        SessionManager { clients: Vec::new(), subs: SubTable::new(), kv: KvCache::new() }
    }

    fn client_index(&self, client_id: &String) -> (r: Option<usize>)
        ensures
            match r {
                Some(i) => i < self.clients@.len() && self.clients@[i as int]@ == client_id@,
                None => !self.has_client(client_id@),
            },
    {
        let n = self.clients.len();
        let mut i: usize = 0;
        while i < n
            invariant
                n == self.clients@.len(),
                i <= n,
                forall|j: int| 0 <= j < i ==> (#[trigger] self.clients@[j])@ != client_id@,
            decreases n - i,
        {
            if self.clients[i] == *client_id {
                return Some(i);
            }
            i += 1;
        }
        None
    }

    /// Whether a connection under this identifier is registered.
    pub fn client_exists(&self, client_id: &String) -> (r: bool)
        ensures
            r == self.has_client(client_id@),
    {
        match self.client_index(client_id) {
            Some(i) => {
                proof {
                    assert(self.clients@[i as int]@ == client_id@);
                }
                true
            },
            None => false,
        }
    }

    /// The identifiers of the registered connections.
    pub fn list_clients(&self) -> (r: Vec<String>)
        ensures
            r@.len() == self.clients@.len(),
            forall|k: int| 0 <= k < r@.len() ==> (#[trigger] r@[k])@ == self.clients@[k]@,
            forall|id: Seq<char>| self.has_client(id) <==> seq_contains_id(r@, id),
    {
        let n = self.clients.len();
        let mut r: Vec<String> = Vec::new();
        let mut i: usize = 0;
        while i < n
            invariant
                n == self.clients@.len(),
                i <= n,
                r@.len() == i,
                forall|k: int| 0 <= k < i ==> (#[trigger] r@[k])@ == self.clients@[k]@,
            decreases n - i,
        {
            r.push(self.clients[i].clone());
            i += 1;
        }
        proof {
            assert forall|id: Seq<char>| self.has_client(id) implies seq_contains_id(r@, id) by {
                let j = choose|j: int|
                    0 <= j < self.clients@.len() && (#[trigger] self.clients@[j])@ == id;
                assert(r@[j]@ == id);
            };
            assert forall|id: Seq<char>| seq_contains_id(r@, id) implies self.has_client(id) by {
                let j = choose|j: int| 0 <= j < r@.len() && (#[trigger] r@[j])@ == id;
                assert(self.clients@[j]@ == id);
            };
        }
        r
    }
}

/// No connection appeared, vanished or was replaced.
pub open spec fn clients_unchanged(a: SessionManager, b: SessionManager) -> bool {
    forall|id: Seq<char>| a.has_client(id) <==> b.has_client(id)
}

/// No subscription entry appeared, vanished or changed.
pub open spec fn subs_unchanged(a: SessionManager, b: SessionManager) -> bool {
    &&& forall|c: Seq<char>, s: Seq<char>| a.has_sub(c, s) <==> b.has_sub(c, s)
    &&& forall|c: Seq<char>, s: Seq<char>|
        a.has_sub(c, s) ==> a.sub_view(c, s) == b.sub_view(c, s)
}

/// No cached bucket handle appeared or vanished.
pub open spec fn kv_unchanged(a: SessionManager, b: SessionManager) -> bool {
    forall|c: Seq<char>, bk: Seq<char>| a.kv_cached(c, bk) <==> b.kv_cached(c, bk)
}

/// The registries are as they were.
pub open spec fn unchanged(a: SessionManager, b: SessionManager) -> bool {
    clients_unchanged(a, b) && subs_unchanged(a, b) && kv_unchanged(a, b)
}

/// Everything `connect_to_nats` promises: a duplicate identifier is refused
/// and disturbs nothing; a transport failure is reported verbatim and
/// disturbs nothing; otherwise the identifier is registered and nothing else
/// changes.
pub open spec fn connect_post(
    pre: SessionManager,
    post: SessionManager,
    client_id: String,
    outcome: ConnectOutcome,
    r: Result<(), NatsError>,
) -> bool {
    &&& post.wf()
    &&& if pre.has_client(client_id@) {
        &&& r matches Err(e) && is_duplicate_client(e, client_id@)
        &&& unchanged(pre, post)
    } else {
        match outcome {
            ConnectOutcome::Failed(reason) => {
                &&& r matches Err(e) && is_transport(e, reason@)
                &&& unchanged(pre, post)
            },
            ConnectOutcome::Connected => {
                &&& r is Ok
                &&& post.has_client(client_id@)
                &&& forall|id: Seq<char>|
                    id != client_id@ ==> (post.has_client(id) <==> pre.has_client(id))
                &&& subs_unchanged(pre, post)
                &&& kv_unchanged(pre, post)
            },
        }
    }
}

/// Everything `disconnect_from_nats` promises: a missing identifier is
/// refused and disturbs nothing; otherwise every subscription of the
/// connection has its liveness flag cleared — and only that — so each of its
/// loops exits at its next step, while the connection itself and the caches
/// stay until `finish_disconnect`.
pub open spec fn disconnect_post(
    pre: SessionManager,
    post: SessionManager,
    client_id: String,
    r: Result<(), NatsError>,
) -> bool {
    &&& post.wf()
    &&& if !pre.has_client(client_id@) {
        &&& r matches Err(e) && is_client_not_found(e, client_id@)
        &&& unchanged(pre, post)
    } else {
        &&& r is Ok
        &&& clients_unchanged(pre, post)
        &&& kv_unchanged(pre, post)
        &&& forall|c: Seq<char>, s: Seq<char>| post.has_sub(c, s) <==> pre.has_sub(c, s)
        &&& forall|s: Seq<char>|
            pre.has_sub(client_id@, s) ==> post.sub_view(client_id@, s) == (SubView {
                live: false,
                ..pre.sub_view(client_id@, s)
            })
        &&& forall|c: Seq<char>, s: Seq<char>|
            c != client_id@ && pre.has_sub(c, s) ==> post.sub_view(c, s) == pre.sub_view(c, s)
    }
}

/// Everything `finish_disconnect` promises: with the grace period over, the
/// connection's remaining subscription entries and cached buckets are purged
/// and the identifier is freed; every other connection keeps its state.
pub open spec fn finish_disconnect_post(
    pre: SessionManager,
    post: SessionManager,
    client_id: String,
    r: Result<(), NatsError>,
) -> bool {
    &&& post.wf()
    &&& if !pre.has_client(client_id@) {
        &&& r matches Err(e) && is_client_not_found(e, client_id@)
        &&& unchanged(pre, post)
    } else {
        &&& r is Ok
        &&& !post.has_client(client_id@)
        &&& forall|id: Seq<char>|
            id != client_id@ ==> (post.has_client(id) <==> pre.has_client(id))
        &&& forall|s: Seq<char>| !post.has_sub(client_id@, s)
        &&& forall|c: Seq<char>, s: Seq<char>|
            c != client_id@ ==> (post.has_sub(c, s) <==> pre.has_sub(c, s))
        &&& forall|c: Seq<char>, s: Seq<char>|
            c != client_id@ && pre.has_sub(c, s) ==> post.sub_view(c, s) == pre.sub_view(c, s)
        &&& forall|b: Seq<char>| !post.kv_cached(client_id@, b)
        &&& forall|c: Seq<char>, b: Seq<char>|
            c != client_id@ ==> (post.kv_cached(c, b) <==> pre.kv_cached(c, b))
    }
}

impl SessionManager {
    /// Registers a connection under `client_id`, given the transport's report
    /// of the connection attempt.  The attempt is only made — and its outcome
    /// only meaningful — when the identifier is free; a duplicate identifier
    /// is refused before any transport work.
    pub fn connect_to_nats(&mut self, client_id: String, outcome: ConnectOutcome) -> (r: Result<
        (),
        NatsError,
    >)
        requires
            old(self).wf(),
        ensures
            connect_post(*old(self), *final(self), client_id, outcome, r),
    {
        match self.client_index(&client_id) {
            Some(i) => {
                proof {
                    assert(self.clients@[i as int]@ == client_id@);
                }
                Err(NatsError::DuplicateClient { client_id })
            },
            None => match outcome {
                ConnectOutcome::Failed(reason) => Err(NatsError::Transport { reason }),
                ConnectOutcome::Connected => {
                    let ghost pre = *self;
                    proof {
                        lemma_ids_push(self.clients@, client_id);
                    }
                    self.clients.push(client_id);
                    proof {
                        assert forall|c: Seq<char>, s: Seq<char>|
                            self.subs.contains_key(c, s) implies self.has_client(c) by {
                            assert(pre.has_client(c));
                            let j = choose|j: int|
                                0 <= j < pre.clients@.len() && (#[trigger] pre.clients@[j])@ == c;
                            assert(self.clients@[j]@ == c);
                        };
                        assert forall|c: Seq<char>, b: Seq<char>|
                            self.kv.contains(c, b) implies self.has_client(c) by {
                            assert(pre.has_client(c));
                            let j = choose|j: int|
                                0 <= j < pre.clients@.len() && (#[trigger] pre.clients@[j])@ == c;
                            assert(self.clients@[j]@ == c);
                        };
                    }
                    Ok(())
                },
            },
        }
    }

    /// Starts the teardown of a connection: flips the liveness flag of every
    /// one of its subscriptions, so each owning loop observes the flag within
    /// one polling interval and exits.  The caller then allows
    /// [`DISCONNECT_GRACE_MS`] for the loops to drain before calling
    /// [`SessionManager::finish_disconnect`].
    pub fn disconnect_from_nats(&mut self, client_id: &String) -> (r: Result<(), NatsError>)
        requires
            old(self).wf(),
        ensures
            disconnect_post(*old(self), *final(self), *client_id, r),
    {
        match self.client_index(client_id) {
            None => Err(NatsError::ClientNotFound { client_id: client_id.clone() }),
            Some(i) => {
                proof {
                    assert(self.clients@[i as int]@ == client_id@);
                }
                self.subs.deactivate_client(client_id);
                Ok(())
            },
        }
    }

    /// Ends the teardown: purges whatever subscription entries and cached
    /// buckets the connection still has, and frees its identifier.  The
    /// transport handle is closed by the caller alongside this call.
    pub fn finish_disconnect(&mut self, client_id: &String) -> (r: Result<(), NatsError>)
        requires
            old(self).wf(),
        ensures
            finish_disconnect_post(*old(self), *final(self), *client_id, r),
    {
        match self.client_index(client_id) {
            None => Err(NatsError::ClientNotFound { client_id: client_id.clone() }),
            Some(i) => {
                proof {
                    assert(self.clients@[i as int]@ == client_id@);
                }
                self.subs.purge_client(client_id);
                self.kv.purge_client(client_id);
                let ghost mid = *self;
                proof {
                    lemma_ids_remove(self.clients@, i as int);
                }
                let _ = self.clients.remove(i);
                proof {
                    assert forall|c: Seq<char>, s: Seq<char>|
                        self.subs.contains_key(c, s) implies self.has_client(c) by {
                        assert(c != client_id@);
                        assert(old(self).has_client(c));
                        assert(mid.has_client(c));
                    };
                    assert forall|c: Seq<char>, b: Seq<char>|
                        self.kv.contains(c, b) implies self.has_client(c) by {
                        assert(c != client_id@);
                        assert(old(self).has_client(c));
                        assert(mid.has_client(c));
                    };
                }
                Ok(())
            },
        }
    }
}

/// Everything `subscribe` and `setup_responder` promise.  The admission
/// checks run in order — the connection must exist, then the key must be
/// free — before any transport work; a transport failure is reported verbatim
/// and disturbs nothing; otherwise the entry is registered live with a fresh
/// counter and nothing else changes.
pub open spec fn subscribe_post(
    pre: SessionManager,
    post: SessionManager,
    client_id: String,
    subject: String,
    subscription_id: String,
    max_messages: u32,
    kind: SubKind,
    outcome: SubscribeOutcome,
    r: Result<(), NatsError>,
) -> bool {
    &&& post.wf()
    &&& if !pre.has_client(client_id@) {
        &&& r matches Err(e) && is_client_not_found(e, client_id@)
        &&& unchanged(pre, post)
    } else if pre.has_sub(client_id@, subscription_id@) {
        &&& r matches Err(e) && is_duplicate_subscription(e, client_id@, subscription_id@)
        &&& unchanged(pre, post)
    } else {
        match outcome {
            SubscribeOutcome::Failed(reason) => {
                &&& r matches Err(e) && is_transport(e, reason@)
                &&& unchanged(pre, post)
            },
            SubscribeOutcome::Subscribed => {
                &&& r is Ok
                &&& clients_unchanged(pre, post)
                &&& kv_unchanged(pre, post)
                &&& post.has_sub(client_id@, subscription_id@)
                &&& post.sub_view(client_id@, subscription_id@) == (SubView {
                    subject: subject@,
                    kind,
                    live: true,
                    max_messages,
                    delivered: 0,
                })
                &&& forall|c: Seq<char>, s: Seq<char>|
                    (c, s) != (client_id@, subscription_id@) ==> (post.has_sub(c, s)
                        <==> pre.has_sub(c, s))
                &&& forall|c: Seq<char>, s: Seq<char>|
                    (c, s) != (client_id@, subscription_id@) && pre.has_sub(c, s)
                        ==> post.sub_view(c, s) == pre.sub_view(c, s)
            },
        }
    }
}

/// Everything `unsubscribe` promises: present, the entry's liveness flag is
/// cleared — the entry itself stays until its loop removes it — and nothing
/// else changes; absent, the call is refused and nothing changes.
pub open spec fn unsubscribe_post(
    pre: SessionManager,
    post: SessionManager,
    client_id: String,
    subscription_id: String,
    r: Result<(), NatsError>,
) -> bool {
    &&& post.wf()
    &&& clients_unchanged(pre, post)
    &&& kv_unchanged(pre, post)
    &&& forall|c: Seq<char>, s: Seq<char>| post.has_sub(c, s) <==> pre.has_sub(c, s)
    &&& if pre.has_sub(client_id@, subscription_id@) {
        &&& r is Ok
        &&& post.sub_view(client_id@, subscription_id@) == (SubView {
            live: false,
            ..pre.sub_view(client_id@, subscription_id@)
        })
        &&& forall|c: Seq<char>, s: Seq<char>|
            (c, s) != (client_id@, subscription_id@) && pre.has_sub(c, s)
                ==> post.sub_view(c, s) == pre.sub_view(c, s)
    } else {
        &&& r matches Err(e) && is_subscription_not_found(e, client_id@, subscription_id@)
        &&& subs_unchanged(pre, post)
    }
}

/// Everything one polling-loop iteration promises: the action equals what the
/// loop state machine [`sub_step`] prescribes for the entry's state and the
/// event, the entry is updated or removed exactly as it prescribes, and no
/// other entry or registry moves.  On an already-removed entry the loop
/// learns it is done, with nothing touched.
pub open spec fn poll_post(
    pre: SessionManager,
    post: SessionManager,
    cid: Seq<char>,
    sid: Seq<char>,
    ev: PollEventView,
    a: PollActionView,
) -> bool {
    &&& post.wf()
    &&& clients_unchanged(pre, post)
    &&& kv_unchanged(pre, post)
    &&& if !pre.has_sub(cid, sid) {
        &&& a == (PollActionView::Done { reason: ExitReason::Removed })
        &&& subs_unchanged(pre, post)
    } else {
        let step = sub_step(pre.sub_view(cid, sid), ev);
        &&& a == step.1
        &&& forall|c: Seq<char>, s: Seq<char>|
            (c, s) != (cid, sid) ==> (post.has_sub(c, s) <==> pre.has_sub(c, s))
        &&& forall|c: Seq<char>, s: Seq<char>|
            (c, s) != (cid, sid) && pre.has_sub(c, s) ==> post.sub_view(c, s) == pre.sub_view(
                c,
                s,
            )
        &&& match step.0 {
            None => !post.has_sub(cid, sid),
            Some(sv) => post.has_sub(cid, sid) && post.sub_view(cid, sid) == sv,
        }
    }
}

/// Everything `send_request` promises: on a missing connection the admission
/// error; a missed deadline is a timeout, never a transport failure; a
/// transport failure carries its reason verbatim; a reply decodes to its text
/// exactly when it is valid UTF-8.
pub open spec fn request_post(
    pre: SessionManager,
    client_id: String,
    outcome: RequestOutcome,
    r: Result<String, NatsError>,
) -> bool {
    if !pre.has_client(client_id@) {
        r matches Err(e) && is_client_not_found(e, client_id@)
    } else {
        match outcome {
            RequestOutcome::TimedOut => r == Err::<String, NatsError>(NatsError::TimedOut),
            RequestOutcome::Failed(reason) => r matches Err(e) && is_transport(e, reason@),
            RequestOutcome::Reply(payload) => if valid_utf8(payload@) {
                r matches Ok(t) && t@ == decode_utf8(payload@)
            } else {
                r == Err::<String, NatsError>(NatsError::InvalidPayload)
            },
        }
    }
}

/// Everything `publish` promises.
pub open spec fn publish_post(
    pre: SessionManager,
    client_id: String,
    outcome: PublishOutcome,
    r: Result<(), NatsError>,
) -> bool {
    if !pre.has_client(client_id@) {
        r matches Err(e) && is_client_not_found(e, client_id@)
    } else {
        match outcome {
            PublishOutcome::Published => r is Ok,
            PublishOutcome::Failed(reason) => r matches Err(e) && is_transport(e, reason@),
        }
    }
}

impl SessionManager {
    fn add_subscription(
        &mut self,
        client_id: &String,
        subject: String,
        subscription_id: String,
        max_messages: u32,
        kind: SubKind,
        outcome: SubscribeOutcome,
    ) -> (r: Result<(), NatsError>)
        requires
            old(self).wf(),
        ensures
            subscribe_post(
                *old(self),
                *final(self),
                *client_id,
                subject,
                subscription_id,
                max_messages,
                kind,
                outcome,
                r,
            ),
    {
        match self.client_index(client_id) {
            None => Err(NatsError::ClientNotFound { client_id: client_id.clone() }),
            Some(ci) => {
                proof {
                    assert(self.clients@[ci as int]@ == client_id@);
                }
                match self.subs.find(client_id, &subscription_id) {
                    Some(j) => {
                        proof {
                            assert(self.has_sub(client_id@, subscription_id@));
                        }
                        Err(NatsError::DuplicateSubscription {
                            client_id: client_id.clone(),
                            subscription_id,
                        })
                    },
                    None => match outcome {
                        SubscribeOutcome::Failed(reason) => Err(NatsError::Transport { reason }),
                        SubscribeOutcome::Subscribed => {
                            let ghost pre = *self;
                            let entry = SubEntry {
                                client_id: client_id.clone(),
                                subscription_id,
                                subject,
                                kind,
                                live: true,
                                max_messages,
                                delivered: 0,
                            };
                            self.subs.insert(entry);
                            proof {
                                assert forall|c: Seq<char>, s: Seq<char>|
                                    self.subs.contains_key(c, s) implies self.has_client(c) by {
                                    if (c, s) != (client_id@, subscription_id@) {
                                        assert(pre.has_sub(c, s));
                                    }
                                };
                            }
                            Ok(())
                        },
                    },
                }
            },
        }
    }

    /// Registers a subscription on `subject` under the given key, given the
    /// transport's report of the subscribe call.  The caller then spawns its
    /// polling loop, which drives [`SessionManager::poll_step`] and delivers
    /// at most `max_messages` messages when that budget is nonzero.
    pub fn subscribe(
        &mut self,
        client_id: &String,
        subject: String,
        subscription_id: String,
        max_messages: u32,
        outcome: SubscribeOutcome,
    ) -> (r: Result<(), NatsError>)
        requires
            old(self).wf(),
        ensures
            subscribe_post(
                *old(self),
                *final(self),
                *client_id,
                subject,
                subscription_id,
                max_messages,
                SubKind::Consumer,
                outcome,
                r,
            ),
    {
        self.add_subscription(
            client_id,
            subject,
            subscription_id,
            max_messages,
            SubKind::Consumer,
            outcome,
        )
    }

    /// Registers a responder on `subject` under the given key, given the
    /// transport's report of the subscribe call.  A responder has no message
    /// budget; its loop hands each request to the caller's handler and
    /// publishes the result to the request's reply subject.
    pub fn setup_responder(
        &mut self,
        client_id: &String,
        subject: String,
        responder_id: String,
        outcome: SubscribeOutcome,
    ) -> (r: Result<(), NatsError>)
        requires
            old(self).wf(),
        ensures
            subscribe_post(
                *old(self),
                *final(self),
                *client_id,
                subject,
                responder_id,
                0u32,
                SubKind::Responder,
                outcome,
                r,
            ),
    {
        self.add_subscription(client_id, subject, responder_id, 0, SubKind::Responder, outcome)
    }

    /// Signals one subscription's loop to stop by clearing its liveness flag.
    /// The entry stays until the loop observes the flag, removes it and fires
    /// the completion callback.
    pub fn unsubscribe(&mut self, client_id: &String, subscription_id: &String) -> (r: Result<
        (),
        NatsError,
    >)
        requires
            old(self).wf(),
        ensures
            unsubscribe_post(*old(self), *final(self), *client_id, *subscription_id, r),
    {
        let found = self.subs.deactivate(client_id, subscription_id);
        if found {
            Ok(())
        } else {
            Err(NatsError::SubscriptionNotFound {
                client_id: client_id.clone(),
                subscription_id: subscription_id.clone(),
            })
        }
    }

    /// The identifiers of this connection's subscriptions whose liveness flag
    /// still stands: exactly the live ones, and none when none is live.
    pub fn list_subscriptions(&self, client_id: &String) -> (r: Vec<String>)
        requires
            self.wf(),
        ensures
            forall|k: int| 0 <= k < r@.len() ==> self.sub_live(client_id@, (#[trigger] r@[k])@),
            forall|s: Seq<char>|
                self.sub_live(client_id@, s) ==> exists|k: int|
                    0 <= k < r@.len() && (#[trigger] r@[k])@ == s,
            r@.len() == 0 <==> !self.has_live_sub(client_id@),
    {
        let r = self.subs.live_ids_for_client(client_id);
        proof {
            if r@.len() > 0 {
                assert(self.sub_live(client_id@, r@[0]@));
            }
            if self.has_live_sub(client_id@) {
                let s = choose|s: Seq<char>| self.sub_live(client_id@, s);
                assert(exists|k: int| 0 <= k < r@.len() && (#[trigger] r@[k])@ == s);
            }
        }
        r
    }

    /// Whether an entry under this key is registered, live or not.
    pub fn subscription_exists(&self, client_id: &String, subscription_id: &String) -> (r: bool)
        ensures
            r == self.has_sub(client_id@, subscription_id@),
    {
        match self.subs.find(client_id, subscription_id) {
            Some(_) => true,
            None => false,
        }
    }

    /// Whether the entry under this key is registered with its liveness flag
    /// standing.
    pub fn is_subscription_active(&self, client_id: &String, subscription_id: &String) -> (r:
        bool)
        requires
            self.wf(),
        ensures
            r == self.sub_live(client_id@, subscription_id@),
    {
        match self.subs.find(client_id, subscription_id) {
            Some(i) => {
                proof {
                    lemma_index_unique(self.subs.entries@, i as int);
                }
                self.subs.get(i).live
            },
            None => false,
        }
    }

    /// One iteration of a subscription's or responder's polling loop, fed the
    /// outcome of one bounded wait on the message source.  Acts exactly as
    /// the loop state machine [`sub_step`] prescribes: exits when the
    /// liveness flag is down or a finite budget is spent (removing the entry,
    /// the completion to be fired once), delivers or hands over decoded
    /// messages, reports undecodable ones without consuming the budget, and
    /// idles on a lapse of the wait.
    pub fn poll_step(
        &mut self,
        client_id: &String,
        subscription_id: &String,
        event: PollEvent,
    ) -> (a: PollAction)
        requires
            old(self).wf(),
        ensures
            poll_post(*old(self), *final(self), client_id@, subscription_id@, event@, a@),
    {
        match self.subs.find(client_id, subscription_id) {
            None => PollAction::Done { reason: ExitReason::Removed },
            Some(i) => {
                proof {
                    lemma_index_unique(self.subs.entries@, i as int);
                    assert(old(self).sub_view(client_id@, subscription_id@)
                        == self.subs.entries@[i as int]@);
                }
                let ghost pre = *self;
                let live = self.subs.get(i).live;
                let kind = self.subs.get(i).kind;
                let max_messages = self.subs.get(i).max_messages;
                let delivered = self.subs.get(i).delivered;
                if !live {
                    self.subs.remove_entry(i);
                    proof {
                        assert forall|c: Seq<char>, s: Seq<char>|
                            self.subs.contains_key(c, s) implies self.has_client(c) by {
                            assert(pre.has_sub(c, s));
                        };
                    }
                    return PollAction::Done { reason: ExitReason::Cancelled };
                }
                if kind == SubKind::Consumer && max_messages > 0 && delivered >= max_messages {
                    self.subs.remove_entry(i);
                    proof {
                        assert forall|c: Seq<char>, s: Seq<char>|
                            self.subs.contains_key(c, s) implies self.has_client(c) by {
                            assert(pre.has_sub(c, s));
                        };
                    }
                    return PollAction::Done { reason: ExitReason::Exhausted };
                }
                match event {
                    PollEvent::Timeout => PollAction::Idle,
                    PollEvent::Message { payload, reply } => {
                        if kind == SubKind::Responder {
                            match reply {
                                None => PollAction::DropMessage,
                                Some(reply_to) => match decode_text(payload) {
                                    None => PollAction::DecodeFailed,
                                    Some(request) => PollAction::Respond { request, reply_to },
                                },
                            }
                        } else {
                            match decode_text(payload) {
                                None => PollAction::DecodeFailed,
                                Some(text) => {
                                    let nd = if delivered < u32::MAX {
                                        delivered + 1
                                    } else {
                                        delivered
                                    };
                                    self.subs.set_delivered(i, nd);
                                    proof {
                                        assert forall|c: Seq<char>, s: Seq<char>|
                                            self.subs.contains_key(c, s)
                                            implies self.has_client(c) by {
                                            assert(pre.has_sub(c, s));
                                        };
                                    }
                                    let subject = self.subs.get(i).subject.clone();
                                    PollAction::Deliver { subject, payload: text }
                                },
                            }
                        }
                    },
                }
            },
        }
    }

    /// Maps a request's reported outcome to the caller's result: the reply's
    /// text, a timeout distinct from any transport failure, or the transport
    /// failure verbatim.  The caller bounds the wait by its `timeout_ms` and
    /// reports a missed deadline as [`RequestOutcome::TimedOut`].
    pub fn send_request(&self, client_id: &String, outcome: RequestOutcome) -> (r: Result<
        String,
        NatsError,
    >)
        ensures
            request_post(*self, *client_id, outcome, r),
    {
        match self.client_index(client_id) {
            None => Err(NatsError::ClientNotFound { client_id: client_id.clone() }),
            Some(ci) => {
                proof {
                    assert(self.clients@[ci as int]@ == client_id@);
                }
                match outcome {
                    RequestOutcome::TimedOut => Err(NatsError::TimedOut),
                    RequestOutcome::Failed(reason) => Err(NatsError::Transport { reason }),
                    RequestOutcome::Reply(payload) => match decode_text(payload) {
                        None => Err(NatsError::InvalidPayload),
                        Some(text) => Ok(text),
                    },
                }
            },
        }
    }

    /// Maps a publish's reported outcome to the caller's result.
    pub fn publish(&self, client_id: &String, outcome: PublishOutcome) -> (r: Result<
        (),
        NatsError,
    >)
        ensures
            publish_post(*self, *client_id, outcome, r),
    {
        match self.client_index(client_id) {
            None => Err(NatsError::ClientNotFound { client_id: client_id.clone() }),
            Some(ci) => {
                proof {
                    assert(self.clients@[ci as int]@ == client_id@);
                }
                match outcome {
                    PublishOutcome::Published => Ok(()),
                    PublishOutcome::Failed(reason) => Err(NatsError::Transport { reason }),
                }
            },
        }
    }
}

/// Maps the outcome of publishing a responder's reply: a failure is reported
/// through the error callback and the responder's loop goes on regardless.
pub fn reply_publish_result(outcome: PublishOutcome) -> (r: Option<NatsError>)
    ensures
        match outcome {
            PublishOutcome::Published => r is None,
            PublishOutcome::Failed(reason) => r matches Some(e) && is_transport(e, reason@),
        },
{
    match outcome {
        PublishOutcome::Published => None,
        PublishOutcome::Failed(reason) => Some(NatsError::Transport { reason }),
    }
}

} // verus!
