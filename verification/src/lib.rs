//! Decision core of a publish/subscribe messaging session manager.
//!
//! The library owns the bookkeeping of a messaging client: which named
//! connections are live, which subscriptions and responders exist per
//! connection, how a polling loop reacts to each inbound event, and how the
//! cached key-value bucket handles are resolved.  Everything that touches the
//! network is kept outside: the caller performs the transport operation and
//! hands its outcome back in as a plain value, and every decision taken on
//! that outcome is verified here.

pub mod errors;
pub mod events;
pub mod kv;
pub mod laws;
pub mod poll;
pub mod session;
pub mod subs;
pub mod text;

use vstd::prelude::*;

verus! {

/// Callbacks through which a caller observes the outcome of a connection
/// attempt.  Implementations live on the caller's side of the boundary.
pub trait ConnectionCallback {
    fn on_success(&self);

    fn on_failure(&self, error: String);

    fn f(&self, a: String) -> i32;
}

} // verus!
