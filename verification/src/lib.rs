//! Settlement engine for rotating savings circles (ROSCA).
//!
//! A circle is a group of members who each contribute a fixed amount per
//! cycle into a custodied pool; exactly one member receives the pooled
//! payout per cycle, rotating until every member has been paid once, after
//! which the cycle rolls over. The engine is a pure state machine over
//! plain values: authorization proofs, value transfers, the clock, secure
//! randomness and event transport are host services. The host resolves
//! caller identities to numeric principals, passes timestamps and shuffled
//! payout orders in, and performs the transfers and event publications the
//! engine's results instruct it to make, strictly after the engine has
//! committed its state (checks-effects-interactions).

use vstd::prelude::*;

pub mod circle;
pub mod errors;
pub mod fees;
pub mod laws;
pub mod member;
pub mod protocol;
pub mod tally;

verus! {

/// Largest roster a circle may have.
pub const MAX_MEMBERS: u32 = 50;

/// The whole, in basis points: 10000 bps = 100%.
pub const MAX_BASIS_POINTS: u32 = 10000;

/// Late-fee rate a new circle starts with: 100 bps = 1%.
pub const DEFAULT_LATE_FEE_BPS: u32 = 100;

/// Inactivity delay (seconds) after which a user may reclaim custodied
/// funds unilaterally: 7 days.
pub const EMERGENCY_WITHDRAWAL_DELAY: u64 = 604800;

} // verus!
