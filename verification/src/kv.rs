//! The cache of resolved key-value bucket handles.
//!
//! A bucket handle is opaque to this core and stays with the caller; the
//! cache records which (connection, bucket) pairs have been resolved, so that
//! the server is asked at most once per pair.  Entries of a connection are
//! purged when it disconnects.

use vstd::prelude::*;
use vstd::utf8::{decode_utf8, valid_utf8};
use crate::errors::{
    is_bucket_access, is_client_not_found, is_key_not_found, NatsError,
};
use crate::events::{
    KvCreateOutcome, KvDeleteOutcome, KvEvent, KvFetchOutcome, KvGetOutcome, KvPutOutcome,
    KvResolveAction, KV_HISTORY, KV_MAX_VALUE_SIZE,
};
use crate::session::{clients_unchanged, kv_unchanged, subs_unchanged, SessionManager};
use crate::text::decode_text;

verus! {

/// One cached (connection, bucket) pair.
pub struct KvCacheEntry {
    pub client_id: String,
    pub bucket: String,
}

pub open spec fn kv_key(e: KvCacheEntry) -> (Seq<char>, Seq<char>) {
    (e.client_id@, e.bucket@)
}

pub open spec fn kv_distinct(s: Seq<KvCacheEntry>) -> bool {
    forall|i: int, j: int|
        0 <= i < j < s.len() ==> kv_key(#[trigger] s[i]) != kv_key(#[trigger] s[j])
}

pub open spec fn kv_seq_contains(s: Seq<KvCacheEntry>, cid: Seq<char>, bucket: Seq<char>) -> bool {
    exists|i: int| 0 <= i < s.len() && kv_key(#[trigger] s[i]) == (cid, bucket)
}

/// The cache of resolved bucket handles, keyed (connection, bucket).
pub struct KvCache {
    pub entries: Vec<KvCacheEntry>,
}

impl KvCache {
    /// The cached keys are pairwise distinct: at most one handle per pair.
    pub open spec fn wf(self) -> bool {
        kv_distinct(self.entries@)
    }

    pub open spec fn contains(self, cid: Seq<char>, bucket: Seq<char>) -> bool {
        kv_seq_contains(self.entries@, cid, bucket)
    }

    pub fn new() -> (r: KvCache)
        ensures
            r.wf(),
            forall|c: Seq<char>, b: Seq<char>| !r.contains(c, b),
    {
        KvCache { entries: Vec::new() }
    }

    /// Whether the pair is cached.
    pub fn lookup(&self, client_id: &String, bucket: &String) -> (r: bool)
        ensures
            r == self.contains(client_id@, bucket@),
    {
        let n = self.entries.len();
        let mut i: usize = 0;
        while i < n
            invariant
                n == self.entries@.len(),
                i <= n,
                forall|j: int|
                    0 <= j < i ==> kv_key(#[trigger] self.entries@[j]) != (client_id@, bucket@),
            decreases n - i,
        {
            if self.entries[i].client_id == *client_id && self.entries[i].bucket == *bucket {
                return true;
            }
            i += 1;
        }
        false
    }

    /// Records a pair as resolved.
    pub fn insert(&mut self, client_id: String, bucket: String)
        requires
            old(self).wf(),
            !old(self).contains(client_id@, bucket@),
        ensures
            final(self).wf(),
            final(self).contains(client_id@, bucket@),
            forall|c: Seq<char>, b: Seq<char>|
                (c, b) != (client_id@, bucket@) ==> (final(self).contains(c, b)
                    <==> old(self).contains(c, b)),
    {
        let ghost pre = self.entries@;
        let entry = KvCacheEntry { client_id, bucket };
        self.entries.push(entry);
        proof {
            let t = pre.push(entry);
            assert(t[pre.len() as int] == entry);
            assert forall|i: int, j: int| 0 <= i < j < t.len()
                implies kv_key(#[trigger] t[i]) != kv_key(#[trigger] t[j]) by {
                if j < pre.len() {
                    assert(t[i] == pre[i] && t[j] == pre[j]);
                } else {
                    assert(t[i] == pre[i] && t[j] == entry);
                    assert(kv_key(pre[i]) != kv_key(entry));
                }
            };
            assert forall|c: Seq<char>, b: Seq<char>|
                (c, b) != kv_key(entry) && kv_seq_contains(t, c, b)
                implies kv_seq_contains(pre, c, b) by {
                let i = choose|i: int| 0 <= i < t.len() && kv_key(#[trigger] t[i]) == (c, b);
                assert(i < pre.len()) by {
                    if i == pre.len() {
                        assert(t[i] == entry);
                    }
                };
                assert(t[i] == pre[i]);
            };
            assert forall|c: Seq<char>, b: Seq<char>| kv_seq_contains(pre, c, b)
                implies kv_seq_contains(t, c, b) by {
                let i = choose|i: int| 0 <= i < pre.len() && kv_key(#[trigger] pre[i]) == (c, b);
                assert(t[i] == pre[i]);
            };
        }
    }

    /// Drops every cached pair of this connection.
    pub fn purge_client(&mut self, client_id: &String)
        requires
            old(self).wf(),
        ensures
            final(self).wf(),
            forall|b: Seq<char>| !final(self).contains(client_id@, b),
            forall|c: Seq<char>, b: Seq<char>|
                c != client_id@ ==> (final(self).contains(c, b) <==> old(self).contains(c, b)),
    {
        let ghost orig = self.entries@;
        let mut i: usize = self.entries.len();
        while i > 0
            invariant
                i <= self.entries@.len(),
                kv_distinct(self.entries@),
                forall|j: int|
                    i <= j < self.entries@.len()
                        ==> (#[trigger] self.entries@[j]).client_id@ != client_id@,
                forall|c: Seq<char>, b: Seq<char>|
                    c != client_id@ ==> (kv_seq_contains(self.entries@, c, b)
                        <==> kv_seq_contains(orig, c, b)),
            decreases i,
        {
            i -= 1;
            if self.entries[i].client_id == *client_id {
                let ghost pre = self.entries@;
                let _ = self.entries.remove(i);
                proof {
                    pre.remove_ensures(i as int);
                    assert(self.entries@ == pre.remove(i as int));
                    let t = self.entries@;
                    assert forall|a: int, b: int| 0 <= a < b < t.len()
                        implies kv_key(#[trigger] t[a]) != kv_key(#[trigger] t[b]) by {
                        let a0: int = if a < i { a } else { a + 1 };
                        let b0: int = if b < i { b } else { b + 1 };
                        assert(t[a] == pre[a0] && t[b] == pre[b0]);
                        assert(kv_key(pre[a0]) != kv_key(pre[b0]));
                    };
                    assert forall|c: Seq<char>, b: Seq<char>|
                        c != client_id@ && kv_seq_contains(pre, c, b)
                        implies kv_seq_contains(t, c, b) by {
                        let j0 = choose|j0: int|
                            0 <= j0 < pre.len() && kv_key(#[trigger] pre[j0]) == (c, b);
                        assert(j0 != i);
                        let j: int = if j0 < i { j0 } else { j0 - 1 };
                        assert(t[j] == pre[j0]);
                    };
                    assert forall|c: Seq<char>, b: Seq<char>|
                        c != client_id@ && kv_seq_contains(t, c, b)
                        implies kv_seq_contains(pre, c, b) by {
                        let j = choose|j: int|
                            0 <= j < t.len() && kv_key(#[trigger] t[j]) == (c, b);
                        let j0: int = if j < i { j } else { j + 1 };
                        assert(t[j] == pre[j0]);
                    };
                }
            }
        }
        proof {
            assert forall|b: Seq<char>| !kv_seq_contains(self.entries@, client_id@, b) by {
                if kv_seq_contains(self.entries@, client_id@, b) {
                    let j = choose|j: int|
                        0 <= j < self.entries@.len()
                        && kv_key(#[trigger] self.entries@[j]) == (client_id@, b);
                    assert(self.entries@[j].client_id@ == client_id@);
                }
            };
        }
    }
}

/// Everything one step of `get_or_create_kv_store` promises: no connection,
/// resolution fails with the admission error; a cached pair is used as it
/// stands; a cache miss asks the server for the existing bucket; a bucket the
/// server does not have is created with the fixed configuration
/// ([`KV_MAX_VALUE_SIZE`], [`KV_HISTORY`]); a fetched or created bucket is
/// cached and resolved; any other server failure propagates verbatim and
/// caches nothing.  Connections and subscriptions never move.
pub open spec fn kv_resolve_post(
    pre: SessionManager,
    post: SessionManager,
    client_id: String,
    bucket: String,
    event: KvEvent,
    a: KvResolveAction,
) -> bool {
    &&& post.wf()
    &&& clients_unchanged(pre, post)
    &&& subs_unchanged(pre, post)
    &&& if !pre.has_client(client_id@) {
        &&& a matches KvResolveAction::Fail(e) && is_client_not_found(e, client_id@)
        &&& kv_unchanged(pre, post)
    } else {
        match event {
            KvEvent::Begin => {
                &&& kv_unchanged(pre, post)
                &&& if pre.kv_cached(client_id@, bucket@) {
                    a is UseCached
                } else {
                    a is FetchBucket
                }
            },
            KvEvent::BucketFetched(o) => match o {
                KvFetchOutcome::Found => {
                    &&& a is Resolved
                    &&& post.kv_cached(client_id@, bucket@)
                    &&& forall|c: Seq<char>, b: Seq<char>|
                        (c, b) != (client_id@, bucket@) ==> (post.kv_cached(c, b)
                            <==> pre.kv_cached(c, b))
                },
                KvFetchOutcome::NotFound => {
                    &&& a == (KvResolveAction::CreateBucket {
                        max_value_size: KV_MAX_VALUE_SIZE,
                        history: KV_HISTORY,
                    })
                    &&& kv_unchanged(pre, post)
                },
                KvFetchOutcome::Failed(reason) => {
                    &&& a matches KvResolveAction::Fail(e) && is_bucket_access(e, reason@)
                    &&& kv_unchanged(pre, post)
                },
            },
            KvEvent::BucketCreated(o) => match o {
                KvCreateOutcome::Created => {
                    &&& a is Resolved
                    &&& post.kv_cached(client_id@, bucket@)
                    &&& forall|c: Seq<char>, b: Seq<char>|
                        (c, b) != (client_id@, bucket@) ==> (post.kv_cached(c, b)
                            <==> pre.kv_cached(c, b))
                },
                KvCreateOutcome::Failed(reason) => {
                    &&& a matches KvResolveAction::Fail(e) && is_bucket_access(e, reason@)
                    &&& kv_unchanged(pre, post)
                },
            },
        }
    }
}

/// Everything `kv_put` promises, the bucket handle having been resolved.
pub open spec fn kv_put_post(
    pre: SessionManager,
    client_id: String,
    outcome: KvPutOutcome,
    r: Result<(), NatsError>,
) -> bool {
    if !pre.has_client(client_id@) {
        r matches Err(e) && is_client_not_found(e, client_id@)
    } else {
        match outcome {
            KvPutOutcome::Stored => r is Ok,
            KvPutOutcome::Failed(reason) => r matches Err(e) && is_bucket_access(e, reason@),
        }
    }
}

/// Everything `kv_get` promises: a present value decodes to its text exactly
/// when it is valid UTF-8; an absent key is reported as such, distinct from
/// any transport failure.
pub open spec fn kv_get_post(
    pre: SessionManager,
    client_id: String,
    key: String,
    outcome: KvGetOutcome,
    r: Result<String, NatsError>,
) -> bool {
    if !pre.has_client(client_id@) {
        r matches Err(e) && is_client_not_found(e, client_id@)
    } else {
        match outcome {
            KvGetOutcome::Value(bytes) => if valid_utf8(bytes@) {
                r matches Ok(v) && v@ == decode_utf8(bytes@)
            } else {
                r == Err::<String, NatsError>(NatsError::InvalidPayload)
            },
            KvGetOutcome::Missing => r matches Err(e) && is_key_not_found(e, key@),
            KvGetOutcome::Failed(reason) => r matches Err(e) && is_bucket_access(e, reason@),
        }
    }
}

/// Everything `kv_delete` promises.
pub open spec fn kv_delete_post(
    pre: SessionManager,
    client_id: String,
    outcome: KvDeleteOutcome,
    r: Result<(), NatsError>,
) -> bool {
    if !pre.has_client(client_id@) {
        r matches Err(e) && is_client_not_found(e, client_id@)
    } else {
        match outcome {
            KvDeleteOutcome::Deleted => r is Ok,
            KvDeleteOutcome::Failed(reason) => r matches Err(e) && is_bucket_access(e, reason@),
        }
    }
}

impl SessionManager {
    fn cache_bucket(&mut self, client_id: &String, bucket: &String)
        requires
            old(self).wf(),
            old(self).has_client(client_id@),
        ensures
            final(self).wf(),
            clients_unchanged(*old(self), *final(self)),
            subs_unchanged(*old(self), *final(self)),
            final(self).kv_cached(client_id@, bucket@),
            forall|c: Seq<char>, b: Seq<char>|
                (c, b) != (client_id@, bucket@) ==> (final(self).kv_cached(c, b)
                    <==> old(self).kv_cached(c, b)),
    {
        let ghost pre = *self;
        if !self.kv.lookup(client_id, bucket) {
            self.kv.insert(client_id.clone(), bucket.clone());
            proof {
                assert forall|c: Seq<char>, b: Seq<char>|
                    self.kv.contains(c, b) implies self.has_client(c) by {
                    if (c, b) != (client_id@, bucket@) {
                        assert(pre.kv_cached(c, b));
                    }
                };
            }
        }
    }

    /// One step in resolving this connection's handle for `bucket`: begun
    /// with [`KvEvent::Begin`], it answers from the cache when it can, and
    /// otherwise directs the caller — fetch the existing bucket, or create it
    /// with the fixed configuration when the server reports it missing — and
    /// caches the handle once the server yielded one.
    pub fn get_or_create_kv_store(
        &mut self,
        client_id: &String,
        bucket: &String,
        event: KvEvent,
    ) -> (a: KvResolveAction)
        requires
            old(self).wf(),
        ensures
            kv_resolve_post(*old(self), *final(self), *client_id, *bucket, event, a),
    {
        if !self.client_exists(client_id) {
            return KvResolveAction::Fail(
                NatsError::ClientNotFound { client_id: client_id.clone() },
            );
        }
        match event {
            KvEvent::Begin => {
                if self.kv.lookup(client_id, bucket) {
                    KvResolveAction::UseCached
                } else {
                    KvResolveAction::FetchBucket
                }
            },
            KvEvent::BucketFetched(o) => match o {
                KvFetchOutcome::Found => {
                    self.cache_bucket(client_id, bucket);
                    KvResolveAction::Resolved
                },
                KvFetchOutcome::NotFound => KvResolveAction::CreateBucket {
                    max_value_size: KV_MAX_VALUE_SIZE,
                    history: KV_HISTORY,
                },
                KvFetchOutcome::Failed(reason) => KvResolveAction::Fail(
                    NatsError::BucketAccess { reason },
                ),
            },
            KvEvent::BucketCreated(o) => match o {
                KvCreateOutcome::Created => {
                    self.cache_bucket(client_id, bucket);
                    KvResolveAction::Resolved
                },
                KvCreateOutcome::Failed(reason) => KvResolveAction::Fail(
                    NatsError::BucketAccess { reason },
                ),
            },
        }
    }

    /// Maps a put's reported outcome to the caller's result.
    pub fn kv_put(&self, client_id: &String, outcome: KvPutOutcome) -> (r: Result<(), NatsError>)
        ensures
            kv_put_post(*self, *client_id, outcome, r),
    {
        if !self.client_exists(client_id) {
            return Err(NatsError::ClientNotFound { client_id: client_id.clone() });
        }
        match outcome {
            KvPutOutcome::Stored => Ok(()),
            KvPutOutcome::Failed(reason) => Err(NatsError::BucketAccess { reason }),
        }
    }

    /// Maps a get's reported outcome to the caller's result: the stored text,
    /// a key-not-found failure, a decode failure on a non-UTF-8 value, or the
    /// server's failure verbatim.
    pub fn kv_get(&self, client_id: &String, key: &String, outcome: KvGetOutcome) -> (r: Result<
        String,
        NatsError,
    >)
        ensures
            kv_get_post(*self, *client_id, *key, outcome, r),
    {
        if !self.client_exists(client_id) {
            return Err(NatsError::ClientNotFound { client_id: client_id.clone() });
        }
        match outcome {
            KvGetOutcome::Value(bytes) => match decode_text(bytes) {
                Some(v) => Ok(v),
                None => Err(NatsError::InvalidPayload),
            },
            KvGetOutcome::Missing => Err(NatsError::KeyNotFound { key: key.clone() }),
            KvGetOutcome::Failed(reason) => Err(NatsError::BucketAccess { reason }),
        }
    }

    /// Maps a delete's reported outcome to the caller's result.
    pub fn kv_delete(&self, client_id: &String, outcome: KvDeleteOutcome) -> (r: Result<
        (),
        NatsError,
    >)
        ensures
            kv_delete_post(*self, *client_id, outcome, r),
    {
        if !self.client_exists(client_id) {
            return Err(NatsError::ClientNotFound { client_id: client_id.clone() });
        }
        match outcome {
            KvDeleteOutcome::Deleted => Ok(()),
            KvDeleteOutcome::Failed(reason) => Err(NatsError::BucketAccess { reason }),
        }
    }
}

} // verus!
