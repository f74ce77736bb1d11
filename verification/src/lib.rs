//! Core of an anonymity-preserving direct-messaging service.
//!
//! Messages are grouped into threads between two participants; the sender of a
//! message may be unknown (anonymous).  The library keeps the durable state of
//! the service — threads, reactions, typing markers, broadcasts, users — as
//! verified in-memory stores, and provides a notification hub that fans typed
//! events out to per-user bounded channels with drop-oldest backpressure.
//! Every operation carries a contract; the surrounding process supplies the
//! clock and performs all I/O.

use vstd::prelude::*;

pub mod broadcasts;
pub mod config;
pub mod hub;
pub mod msg;
pub mod reactions;
pub mod store;
pub mod text;
pub mod typing;
pub mod users;

verus! {

/// Why an operation was refused.  Every fallible store operation says in its
/// contract exactly which inputs produce which variant.
#[derive(Clone, Copy, Debug, PartialEq, Eq, Structural)]
pub enum StoreError {
    /// The request itself is malformed (blank content, self-targeted block).
    InvalidInput,
    /// The acting user is neither end of the referenced exchange.
    NotAParticipant,
    /// The acting user is not entitled to the referenced resource.
    Forbidden,
    /// A reply cannot be routed because the original sender is unknown.
    AnonymousSender,
    /// The referenced record is absent or tombstoned.
    NotFound,
}

/// Default number of rows returned by listing endpoints that take no
/// explicit limit.
pub fn default_limit() -> (r: i64)
    ensures
        r == 50,
{
    50
}

} // verus!
