//! Plain-value outcomes and events that the caller hands back to the core.
//!
//! The transport layer is an external collaborator: the caller performs each
//! network operation itself and reports what happened through one of these
//! types.  Every decision taken on such a report is made, and verified, in
//! this crate.

use vstd::prelude::*;

verus! {

/// Bounded wait used by a polling loop when it asks for the next message, in
/// milliseconds.  A lapse of this wait is not an error; the loop re-enters.
pub const RECEIVE_WAIT_MS: u64 = 100;

/// How long a loop yields between polls when no message arrived, to avoid
/// busy-spinning, in milliseconds.
pub const IDLE_DELAY_MS: u64 = 50;

/// Grace period a disconnect allows the polling loops to observe their
/// liveness flags and exit before the registries are cleared, in milliseconds.
pub const DISCONNECT_GRACE_MS: u64 = 200;

/// Largest value accepted by a key-value bucket created by this core, in bytes.
pub const KV_MAX_VALUE_SIZE: i32 = 1048576;

/// How many revisions a key-value bucket created by this core keeps.
pub const KV_HISTORY: i64 = 5;

/// What the transport reported for a connection attempt.
pub enum ConnectOutcome {
    Connected,
    Failed(String),
}

/// What the transport reported for a subscribe call.
pub enum SubscribeOutcome {
    Subscribed,
    Failed(String),
}

/// What the transport reported for a publish call.
pub enum PublishOutcome {
    Published,
    Failed(String),
}

/// What a request yielded: a reply payload, a missed deadline, or a
/// transport failure.
pub enum RequestOutcome {
    Reply(Vec<u8>),
    TimedOut,
    Failed(String),
}

/// What one bounded wait on a subscription's message source yielded.
pub enum PollEvent {
    /// A message arrived: its payload bytes and, when it carries one, its
    /// reply subject.
    Message { payload: Vec<u8>, reply: Option<String> },
    /// The bounded wait elapsed without a message.
    Timeout,
}

/// Mathematical value of a [`PollEvent`].
pub enum PollEventView {
    Message { payload: Seq<u8>, reply: Option<Seq<char>> },
    Timeout,
}

impl View for PollEvent {
    type V = PollEventView;

    open spec fn view(&self) -> PollEventView {
        match self {
            PollEvent::Message { payload, reply } => PollEventView::Message {
                payload: payload@,
                reply: match reply {
                    Some(r) => Some(r@),
                    None => None,
                },
            },
            PollEvent::Timeout => PollEventView::Timeout,
        }
    }
}

/// Why a polling loop ended.
#[derive(Debug, Clone, Copy, PartialEq, Eq, Structural)]
pub enum ExitReason {
    /// The liveness flag was false: an unsubscribe or a disconnect signalled
    /// the loop to stop.
    Cancelled,
    /// The finite message budget was used up.
    Exhausted,
    /// The registry entry was gone already, removed concurrently.
    Removed,
}

/// What the owning loop must do after one polling step.
pub enum PollAction {
    /// Hand the decoded message to the message callback.
    Deliver { subject: String, payload: String },
    /// Hand the decoded request to the responder's handler and publish the
    /// handler's result to `reply_to`.
    Respond { request: String, reply_to: String },
    /// A responder message without a reply subject: drop it silently.
    DropMessage,
    /// The payload was not valid UTF-8: report it through the error callback
    /// and keep the loop running.
    DecodeFailed,
    /// Nothing arrived: yield briefly, then poll again.
    Idle,
    /// The loop is over and its entry is removed: fire the completion
    /// callback exactly once and stop.
    Done { reason: ExitReason },
}

/// Mathematical value of a [`PollAction`].
pub enum PollActionView {
    Deliver { subject: Seq<char>, payload: Seq<char> },
    Respond { request: Seq<char>, reply_to: Seq<char> },
    DropMessage,
    DecodeFailed,
    Idle,
    Done { reason: ExitReason },
}

impl View for PollAction {
    type V = PollActionView;

    open spec fn view(&self) -> PollActionView {
        match self {
            PollAction::Deliver { subject, payload } => PollActionView::Deliver {
                subject: subject@,
                payload: payload@,
            },
            PollAction::Respond { request, reply_to } => PollActionView::Respond {
                request: request@,
                reply_to: reply_to@,
            },
            PollAction::DropMessage => PollActionView::DropMessage,
            PollAction::DecodeFailed => PollActionView::DecodeFailed,
            PollAction::Idle => PollActionView::Idle,
            PollAction::Done { reason } => PollActionView::Done { reason: *reason },
        }
    }
}

/// What the key-value resolution asked the caller about, reported back.
pub enum KvEvent {
    /// Start resolving: nothing has been asked of the server yet.
    Begin,
    /// The server was asked for the existing bucket.
    BucketFetched(KvFetchOutcome),
    /// The server was asked to create the bucket.
    BucketCreated(KvCreateOutcome),
}

/// What fetching an existing bucket from the server yielded.
pub enum KvFetchOutcome {
    Found,
    NotFound,
    Failed(String),
}

/// What creating a bucket on the server yielded.
pub enum KvCreateOutcome {
    Created,
    Failed(String),
}

/// What a key-value put yielded.
pub enum KvPutOutcome {
    Stored,
    Failed(String),
}

/// What a key-value get yielded.
pub enum KvGetOutcome {
    Value(Vec<u8>),
    Missing,
    Failed(String),
}

/// What a key-value delete yielded.
pub enum KvDeleteOutcome {
    Deleted,
    Failed(String),
}

/// Next move in resolving a key-value bucket handle.
pub enum KvResolveAction {
    /// The handle is already cached: use it.
    UseCached,
    /// Ask the server for the existing bucket, then report through
    /// [`KvEvent::BucketFetched`].
    FetchBucket,
    /// The bucket does not exist: create it with this configuration, then
    /// report through [`KvEvent::BucketCreated`].
    CreateBucket { max_value_size: i32, history: i64 },
    /// The handle is resolved and now cached.
    Resolved,
    /// Resolution failed; nothing was cached.
    Fail(crate::errors::NatsError),
}

} // verus!
