//! Request-lifecycle orchestration for a polling HTTP client.
//!
//! The crate tracks every in-flight request's state in a [`RequestManager`](manager::RequestManager):
//! callers initialize a request, a stream executor pushes status, chunks and
//! completion into the manager, and the host polls for an eventually-consistent
//! snapshot at its own pace.  Cancellation is cooperative (a per-request token),
//! timeout detection is poll-triggered, and abandoned requests age into an idle
//! state and are reclaimed by an opportunistic cleanup pass.
//!
//! Every operation that involves the current time exists in two forms: a
//! `*_at` form that takes the time as an argument and has an exact contract,
//! and a convenience form that reads the wall clock and delegates.

pub mod clock;
pub mod error;
pub mod events;
pub mod idmap;
pub mod laws;
pub mod manager;
pub mod options;
pub mod record;
pub mod session;
pub mod sse;
pub mod state;
pub mod strkit;
pub mod urlq;
