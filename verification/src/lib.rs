//! Outbound delivery scheduling for a mail transfer server.
//!
//! The crate decides, for every queued message and every destination domain
//! within it, when and whether a delivery attempt may be dispatched. It
//! combines per-destination retry deadlines, admission control through
//! concurrency limiters, an on-hold registry that records why an item is
//! currently blocked, and the single-writer control loop that ties them
//! together.

pub mod blob;
pub mod boot;
pub mod certs;
pub mod clock;
pub mod housekeeper;
pub mod laws;
pub mod limiter;
pub mod manage;
pub mod message;
pub mod on_hold;
pub mod queue;
pub mod sieve;

use vstd::prelude::*;

verus! {

} // verus!
