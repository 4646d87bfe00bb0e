//! The error taxonomy of the session manager.
//!
//! Admission errors (duplicate or missing identifiers) are decided before any
//! transport work; transport errors carry the messaging layer's reason
//! verbatim; a timed-out request is distinct from a transport failure; a
//! non-UTF-8 payload is a decode failure, never a transport one.

use vstd::prelude::*;

verus! {

/// Why an operation failed.
#[derive(Debug, PartialEq, Eq)]
pub enum NatsError {
    /// A connection with this identifier already exists.
    DuplicateClient { client_id: String },
    /// No connection with this identifier exists.
    ClientNotFound { client_id: String },
    /// The (connection, subscription) pair is already registered.
    DuplicateSubscription { client_id: String, subscription_id: String },
    /// The (connection, subscription) pair is not registered.
    SubscriptionNotFound { client_id: String, subscription_id: String },
    /// The messaging layer reported a failure; the reason is kept verbatim.
    Transport { reason: String },
    /// A request exceeded its deadline.
    TimedOut,
    /// A payload was not valid UTF-8.
    InvalidPayload,
    /// The key-value store has no entry under this key.
    KeyNotFound { key: String },
    /// The key-value bucket could not be reached, created or operated on.
    BucketAccess { reason: String },
}

pub open spec fn is_duplicate_client(e: NatsError, id: Seq<char>) -> bool {
    e matches NatsError::DuplicateClient { client_id } && client_id@ == id
}

pub open spec fn is_client_not_found(e: NatsError, id: Seq<char>) -> bool {
    e matches NatsError::ClientNotFound { client_id } && client_id@ == id
}

pub open spec fn is_duplicate_subscription(e: NatsError, cid: Seq<char>, sid: Seq<char>) -> bool {
    e matches NatsError::DuplicateSubscription { client_id, subscription_id }
        && client_id@ == cid && subscription_id@ == sid
}

pub open spec fn is_subscription_not_found(e: NatsError, cid: Seq<char>, sid: Seq<char>) -> bool {
    e matches NatsError::SubscriptionNotFound { client_id, subscription_id }
        && client_id@ == cid && subscription_id@ == sid
}

pub open spec fn is_transport(e: NatsError, why: Seq<char>) -> bool {
    e matches NatsError::Transport { reason } && reason@ == why
}

pub open spec fn is_key_not_found(e: NatsError, k: Seq<char>) -> bool {
    e matches NatsError::KeyNotFound { key } && key@ == k
}

pub open spec fn is_bucket_access(e: NatsError, why: Seq<char>) -> bool {
    e matches NatsError::BucketAccess { reason } && reason@ == why
}

} // verus!
