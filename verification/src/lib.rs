//! Graceful-shutdown interception, modelled and verified.
//!
//! The library is the decision core of a shutdown-signal interceptor: a
//! per-signal-number stack of handlers with LIFO dispatch, the platform
//! backend's delegation rules, a two-slot cell readable from a restricted
//! execution context, a burst-coalescing bridge between that context and an
//! ordinary worker thread, and the user-facing shutdown coordinator.
//!
//! Everything that must run in the restricted signal-delivery context, or
//! that touches the operating system (installing handlers, semaphores,
//! threads), lives outside this crate and consults these verified functions
//! for every decision it takes.

use vstd::prelude::*;

pub mod assoc;
pub mod backend;
pub mod bridge;
pub mod cell;
pub mod coordinator;
pub mod stack;

pub use coordinator::Handler;
pub use coordinator::ShutdownGuard;

verus! {

/// The kinds of shutdown request this library distinguishes.
#[derive(Copy, Clone, Debug, PartialEq, Eq, Hash, Structural)]
#[non_exhaustive]
pub enum ShutdownType {
    /// The program was interrupted, for example via Ctrl+C. This corresponds
    /// to `SIGINT` on POSIX platforms.
    Interrupt,
    /// The program was requested to terminate normally. This corresponds to
    /// `SIGTERM` on POSIX platforms.
    Terminate,
}

} // verus!
