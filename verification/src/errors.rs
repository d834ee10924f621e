//! Typed errors for the settlement engine.
//!
//! Every failing operation aborts with no partial mutation visible and
//! reports exactly which precondition failed; all errors are recoverable
//! by the caller.

use vstd::prelude::*;

verus! {

/// Reason a call into the engine was refused.
#[derive(Clone, Copy, Debug, PartialEq, Eq, Structural)]
pub enum Error {
    /// No circle with the given id exists.
    CircleNotFound,
    /// The caller is not the principal the operation requires.
    Unauthorized,
    /// The caller is already on the circle's roster.
    AlreadyJoined,
    /// The roster already holds the maximum number of members.
    MaxMembersReached,
    /// The named member is not on the circle's roster.
    MemberNotFound,
    /// The member is on the roster but not active (ejected or awaiting
    /// replacement), so it cannot act or be paid.
    NotMember,
    /// The replacement identity is already a distinct member.
    MemberAlreadyExists,
    /// The member has already cast this vote.
    AlreadyVoted,
    /// The circle has been dissolved.
    AlreadyDissolved,
    /// The circle has not been dissolved.
    NotDissolved,
    /// A nonzero fee was computed but no treasury is configured, or a
    /// basis-point parameter exceeds the whole.
    InvalidFeeConfig,
    /// The requested penalty exceeds what the member has contributed.
    PenaltyExceedsContribution,
    /// The member's payout flag for the current cycle is already set.
    PayoutAlreadyReceived,
    /// Not every member has been paid in the current cycle.
    CycleNotComplete,
    /// The custodied balance cannot cover the requested disbursal.
    InsufficientBalance,
    /// The inactivity delay has not elapsed.
    EmergencyWithdrawalNotAvailable,
    /// The circle's state does not admit the operation (no active
    /// proposal, insurance already used, member already covered, or an
    /// ill-formed payout order was supplied).
    InvalidCircleState,
}

impl Error {
    /// A short human-readable description of the error.
    pub fn describe(&self) -> (r: &'static str) {
        match self {
            Error::CircleNotFound => "circle not found",
            Error::Unauthorized => "unauthorized",
            Error::AlreadyJoined => "already joined",
            Error::MaxMembersReached => "max members reached",
            Error::MemberNotFound => "member not found",
            Error::NotMember => "not an active member",
            Error::MemberAlreadyExists => "member already exists",
            Error::AlreadyVoted => "already voted",
            Error::AlreadyDissolved => "circle already dissolved",
            Error::NotDissolved => "circle not dissolved",
            Error::InvalidFeeConfig => "invalid fee configuration",
            Error::PenaltyExceedsContribution => "penalty exceeds contribution",
            Error::PayoutAlreadyReceived => "payout already received",
            Error::CycleNotComplete => "cycle not complete",
            Error::InsufficientBalance => "insufficient balance",
            Error::EmergencyWithdrawalNotAvailable => "emergency withdrawal not available",
            Error::InvalidCircleState => "invalid circle state",
        }
    }
}

} // verus!
