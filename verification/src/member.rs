//! Roster slots: one record per admitted member of a circle.

use vstd::prelude::*;

verus! {

/// Standing of a member within a circle.
#[derive(Clone, Copy, Debug, PartialEq, Eq, Structural)]
pub enum MemberStatus {
    /// The member participates normally.
    Active,
    /// The member has asked to leave and holds the slot until replaced.
    AwaitingReplacement,
    /// The member was ejected; the slot's bookkeeping is preserved but
    /// the member can neither deposit nor be paid.
    Ejected,
}

/// One roster slot of a circle.
///
/// The record is addressed by its stable `index` (its position in the
/// roster), so the per-cycle dues flag and the vote flags belong to the
/// slot: a replacement member installed in the slot inherits them together
/// with the contribution ledger.
#[derive(Clone, Copy, Debug, PartialEq, Eq, Structural)]
pub struct Member {
    /// Numeric principal the host resolved this member's identity to.
    pub address: u64,
    /// Stable position of the slot in the roster.
    pub index: u32,
    /// How many dues deposits the slot has made over the circle's life.
    pub contribution_count: u32,
    /// Timestamp of the slot's latest dues deposit.
    pub last_contribution_time: u64,
    /// Standing of the member holding the slot.
    pub status: MemberStatus,
    /// Principal paid in and not yet refunded: the ledger a pro-rata
    /// refund is computed from. Collected fees are not refundable and are
    /// not recorded here.
    pub total_contributed: u128,
    /// Whether the slot's dues for the current cycle are covered.
    pub has_contributed: bool,
    /// Whether the slot has cast its dissolution vote.
    pub has_voted_dissolve: bool,
    /// Whether the slot has voted on the pending late-fee proposal.
    pub has_voted_proposal: bool,
}

impl Member {
    /// The record a member starts with when admitted into slot `index`.
    pub open spec fn spec_new(address: u64, index: u32) -> Member {
        Member {
            address,
            index,
            contribution_count: 0,
            last_contribution_time: 0,
            status: MemberStatus::Active,
            total_contributed: 0,
            has_contributed: false,
            has_voted_dissolve: false,
            has_voted_proposal: false,
        }
    }

    /// Admit a fresh member into slot `index`. A newly joined member
    /// starts with an empty ledger: no deposit is credited at join time.
    pub fn new(address: u64, index: u32) -> (m: Member)
        ensures
            m == Member::spec_new(address, index),
    {
        Member {
            address,
            index,
            contribution_count: 0,
            last_contribution_time: 0,
            status: MemberStatus::Active,
            total_contributed: 0,
            has_contributed: false,
            has_voted_dissolve: false,
            has_voted_proposal: false,
        }
    }

    /// Whether the member may act and be paid.
    pub open spec fn is_active(self) -> bool {
        self.status == MemberStatus::Active
    }
}

} // verus!
