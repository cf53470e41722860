//! A two-stage charity raffle, verified.
//!
//! Participants deposit a bounded amount of value, a countdown fixed at
//! construction gates when a draw may occur, and a randomized no-replacement
//! selection picks winners one at a time until two have been chosen, at which
//! point all collected value is owed to a beneficiary.
//!
//! The engine is a pure state machine: the host hands it the identity of the
//! caller, the value attached to a call, the current time and the random
//! bytes, and takes back the events to emit and the one payout to perform.
//! The engine derives each draw's seed and its hash itself; only the
//! randomness keyed by that digest comes from the host.
//!
//! Two behaviours admit more than one reasonable design; this engine fixes
//! both. The draw countdown starts at construction, not at the fifth entry;
//! and the random bytes are reduced by reading their first four as a
//! little-endian integer, not by folding them all.

pub mod digest;
pub mod model;
pub mod raffle;
pub mod laws;
