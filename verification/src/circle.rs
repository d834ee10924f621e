//! One rotating savings circle: roster, payout queue, cycle tallies,
//! custodied funds, fees, insurance and governance, with the circle-level
//! operations of the settlement engine.
//!
//! Every operation is atomic: it either returns `Ok` having applied its
//! whole effect, or returns a typed error and leaves the circle untouched.
//! Each operation's behaviour is captured by a relational transition
//! predicate (`join_transition`, `payout_transition`, ...) that both the
//! method's contract and the registry's delegating entry points share.

use vstd::prelude::*;

use crate::errors::Error;
use crate::fees::{fee_of, spec_fee_of};
use crate::member::{Member, MemberStatus};
use crate::tally::{
    count_where, lemma_count_where_all, lemma_count_where_bounds, lemma_count_where_map,
    lemma_count_where_pointwise, lemma_count_where_push, lemma_count_where_remove,
    lemma_count_where_update, lemma_count_where_zero, lemma_index_of_unique,
    lemma_no_dup_remove, lemma_no_dup_remove_contains, lemma_no_dup_update,
    lemma_no_dup_update_contains,
};
use crate::{DEFAULT_LATE_FEE_BPS, MAX_BASIS_POINTS, MAX_MEMBERS};

verus! {

/// One rotating savings group.
#[derive(Clone, Debug)]
pub struct Circle {
    /// Identifier the registry allocated; positive and unique.
    pub id: u64,
    /// Principal that controls admin-only operations on this circle.
    pub admin: u64,
    /// Fixed per-cycle amount owed by every member; positive.
    pub contribution: u64,
    /// Whether the payout order is randomized at finalization.
    pub is_random_queue: bool,
    /// Roster, in join order; slot `i` holds `members[i]`.
    pub members: Vec<Member>,
    /// Payout order: empty before finalization, afterwards a permutation
    /// of the roster's identities, immutable across cycles.
    pub payout_queue: Vec<u64>,
    /// Per-slot flag: whether the slot was paid in the current cycle.
    pub has_received_payout: Vec<bool>,
    /// Current cycle, starting at 1.
    pub cycle_number: u32,
    /// Payouts made in the current cycle.
    pub current_payout_index: u32,
    /// Sum of gross amounts paid out in the current cycle.
    pub total_volume_distributed: u128,
    /// Whether the circle reached its terminal, dissolved state.
    pub is_dissolved: bool,
    /// Dissolution votes cast by the current roster.
    pub dissolution_votes: u32,
    /// Custodied principal available for payouts and refunds.
    pub balance: u128,
    /// Late fees collected for the group (not the protocol treasury).
    pub group_reserve: u128,
    /// Insurance fund accumulated from the insurance surcharge.
    pub insurance_balance: u128,
    /// Insurance surcharge rate in basis points; at most the whole.
    pub insurance_fee_bps: u32,
    /// Whether insurance coverage was already used this cycle.
    pub is_insurance_used: bool,
    /// Late-fee rate in basis points; at most the whole.
    pub late_fee_bps: u32,
    /// Proposed replacement late-fee rate; 0 means no open proposal.
    pub proposed_late_fee_bps: u32,
    /// Votes cast for the open late-fee proposal.
    pub proposal_votes: u32,
    /// Deadline for on-time dues in the current cycle.
    pub deadline_timestamp: u64,
    /// Length of a payment cycle in seconds.
    pub cycle_duration: u64,
}

/// Predicate over payout flags: the flag itself.
pub open spec fn flag_set() -> spec_fn(bool) -> bool {
    |b: bool| b
}

/// Predicate over roster slots: the slot's dues for the current cycle
/// are covered.
pub open spec fn dues_covered() -> spec_fn(Member) -> bool {
    |m: Member| m.has_contributed
}

/// Predicate over roster slots: the slot cast its dissolution vote.
pub open spec fn voted_dissolve() -> spec_fn(Member) -> bool {
    |m: Member| m.has_voted_dissolve
}

/// Predicate over roster slots: the slot voted on the open proposal.
pub open spec fn voted_proposal() -> spec_fn(Member) -> bool {
    |m: Member| m.has_voted_proposal
}

impl Circle {
    /// The identities on the roster, in join order.
    pub open spec fn member_ids(self) -> Seq<u64> {
        self.members@.map_values(|m: Member| m.address)
    }

    /// Whether `a` holds a roster slot (whatever its standing).
    pub open spec fn is_member(self, a: u64) -> bool {
        self.member_ids().contains(a)
    }

    /// The slot `a` holds. Meaningful only when `is_member(a)` holds: the
    /// roster carries no duplicate identities, so the slot is unique.
    pub open spec fn member_index(self, a: u64) -> int {
        self.member_ids().index_of(a)
    }

    /// Whether `a` holds a slot and may act and be paid.
    pub open spec fn is_active_member(self, a: u64) -> bool {
        self.is_member(a) && self.members@[self.member_index(a)].is_active()
    }

    /// Size of the roster.
    pub open spec fn member_count(self) -> int {
        self.members@.len() as int
    }

    /// Whether the payout order has been committed.
    pub open spec fn finalized(self) -> bool {
        self.payout_queue@.len() > 0
    }

    /// Members paid in the current cycle.
    pub open spec fn paid_count(self) -> int {
        count_where(self.has_received_payout@, flag_set())
    }

    /// Dissolution votes currently on the roster.
    pub open spec fn dissolve_vote_count(self) -> int {
        count_where(self.members@, voted_dissolve())
    }

    /// Proposal votes currently on the roster.
    pub open spec fn proposal_vote_count(self) -> int {
        count_where(self.members@, voted_proposal())
    }

    /// The committed payout order is a permutation of the roster: same
    /// length, no repeats, same identities.
    pub open spec fn queue_matches_roster(self) -> bool {
        &&& self.payout_queue@.len() == self.members@.len()
        &&& self.payout_queue@.no_duplicates()
        &&& forall|a: u64| self.payout_queue@.contains(a) <==> self.member_ids().contains(a)
    }

    /// Well-formedness: every operation preserves this.
    pub open spec fn wf(self) -> bool {
        &&& self.members@.len() <= MAX_MEMBERS
        &&& self.member_ids().no_duplicates()
        &&& self.has_received_payout@.len() == self.members@.len()
        &&& (forall|i: int|
            0 <= i < self.members@.len() ==> (#[trigger] self.members@[i]).index == i as u32)
        &&& self.contribution > 0
        &&& self.late_fee_bps <= MAX_BASIS_POINTS
        &&& self.insurance_fee_bps <= MAX_BASIS_POINTS
        &&& self.proposed_late_fee_bps <= MAX_BASIS_POINTS
        &&& self.current_payout_index as int == self.paid_count()
        &&& self.total_volume_distributed as int == self.contribution as int * self.paid_count()
        &&& self.dissolution_votes as int == self.dissolve_vote_count()
        &&& self.proposal_votes as int == self.proposal_vote_count()
        &&& (self.finalized() ==> self.queue_matches_roster())
    }

    /// The record a circle starts with: empty roster and queue, cycle 1,
    /// nothing custodied, the default late-fee rate, and the first dues
    /// deadline one cycle after `now`.
    pub open spec fn is_fresh(
        self,
        id: u64,
        admin: u64,
        contribution: u64,
        is_random_queue: bool,
        insurance_fee_bps: u32,
        cycle_duration: u64,
        now: u64,
    ) -> bool {
        &&& self.id == id
        &&& self.admin == admin
        &&& self.contribution == contribution
        &&& self.is_random_queue == is_random_queue
        &&& self.members@ == Seq::<Member>::empty()
        &&& self.payout_queue@ == Seq::<u64>::empty()
        &&& self.has_received_payout@ == Seq::<bool>::empty()
        &&& self.cycle_number == 1
        &&& self.current_payout_index == 0
        &&& self.total_volume_distributed == 0
        &&& !self.is_dissolved
        &&& self.dissolution_votes == 0
        &&& self.balance == 0
        &&& self.group_reserve == 0
        &&& self.insurance_balance == 0
        &&& self.insurance_fee_bps == insurance_fee_bps
        &&& !self.is_insurance_used
        &&& self.late_fee_bps == DEFAULT_LATE_FEE_BPS
        &&& self.proposed_late_fee_bps == 0
        &&& self.proposal_votes == 0
        &&& self.deadline_timestamp == (if now + cycle_duration <= u64::MAX {
            now + cycle_duration
        } else {
            u64::MAX as int
        })
        &&& self.cycle_duration == cycle_duration
    }

    /// Create an empty circle with `admin` as its controller. The first
    /// dues deadline falls one cycle after `now`.
    pub fn new(
        id: u64,
        admin: u64,
        contribution: u64,
        is_random_queue: bool,
        insurance_fee_bps: u32,
        cycle_duration: u64,
        now: u64,
    ) -> (c: Circle)
        requires
            contribution > 0,
            insurance_fee_bps <= MAX_BASIS_POINTS,
        ensures
            c.is_fresh(
                id,
                admin,
                contribution,
                is_random_queue,
                insurance_fee_bps,
                cycle_duration,
                now,
            ),
            c.wf(),
    {
        let c = Circle {
            id,
            admin,
            contribution,
            is_random_queue,
            members: Vec::new(),
            payout_queue: Vec::new(),
            has_received_payout: Vec::new(),
            cycle_number: 1,
            current_payout_index: 0,
            total_volume_distributed: 0,
            is_dissolved: false,
            dissolution_votes: 0,
            balance: 0,
            group_reserve: 0,
            insurance_balance: 0,
            insurance_fee_bps,
            is_insurance_used: false,
            late_fee_bps: DEFAULT_LATE_FEE_BPS,
            proposed_late_fee_bps: 0,
            proposal_votes: 0,
            deadline_timestamp: now.saturating_add(cycle_duration),
            cycle_duration,
        };
        proof {
            assert(c.member_ids() =~= Seq::<u64>::empty());
        }
        c
    }

    /// Find the slot an identity holds.
    fn find_member(&self, address: u64) -> (r: Option<usize>)
        ensures
            match r {
                Some(i) => i < self.members@.len() && self.members@[i as int].address == address,
                None => !self.is_member(address),
            },
            r is Some <==> self.is_member(address),
    {
        let mut i: usize = 0;
        while i < self.members.len()
            invariant
                i <= self.members@.len(),
                forall|j: int| 0 <= j < i ==> self.members@[j].address != address,
            decreases self.members@.len() - i,
        {
            if self.members[i].address == address {
                proof {
                    assert(self.member_ids()[i as int] == address);
                }
                return Some(i);
            }
            i += 1;
        }
        None
    }
}

/// What `join` does: a fresh, active member is appended to the roster
/// with an unpaid payout flag, or the call is refused and nothing moves.
pub open spec fn join_transition(pre: Circle, post: Circle, caller: u64, r: Result<
    (),
    Error,
>) -> bool {
    if pre.is_dissolved {
        r == Err::<(), Error>(Error::AlreadyDissolved) && post == pre
    } else if pre.finalized() {
        r == Err::<(), Error>(Error::InvalidCircleState) && post == pre
    } else if pre.is_member(caller) {
        r == Err::<(), Error>(Error::AlreadyJoined) && post == pre
    } else if pre.member_count() >= MAX_MEMBERS {
        r == Err::<(), Error>(Error::MaxMembersReached) && post == pre
    } else {
        &&& r == Ok::<(), Error>(())
        &&& post.members@ == pre.members@.push(
            Member::spec_new(caller, pre.member_count() as u32),
        )
        &&& post.has_received_payout@ == pre.has_received_payout@.push(false)
        &&& post == (Circle {
            members: post.members,
            has_received_payout: post.has_received_payout,
            ..pre
        })
    }
}

impl Circle {
    /// Admit `caller` to the roster. Members are admitted only while the
    /// circle is open: once the payout order is committed the roster is
    /// closed (`InvalidCircleState`), so that the order stays a
    /// permutation of the roster. Fails with `AlreadyDissolved` on a
    /// dissolved circle, `AlreadyJoined` if `caller` already holds a
    /// slot, and `MaxMembersReached` on a full roster.
    pub fn join(&mut self, caller: u64) -> (r: Result<(), Error>)
        requires
            old(self).wf(),
        ensures
            final(self).wf(),
            join_transition(*old(self), *final(self), caller, r),
    {
        if self.is_dissolved {
            return Err(Error::AlreadyDissolved);
        }
        if !self.payout_queue.is_empty() {
            return Err(Error::InvalidCircleState);
        }
        if self.find_member(caller).is_some() {
            return Err(Error::AlreadyJoined);
        }
        if self.members.len() >= MAX_MEMBERS as usize {
            return Err(Error::MaxMembersReached);
        }
        let ghost pre = *self;
        let index = self.members.len() as u32;
        self.members.push(Member::new(caller, index));
        self.has_received_payout.push(false);
        proof {
            assert(self.member_ids() =~= pre.member_ids().push(caller));
            lemma_count_where_push(pre.has_received_payout@, flag_set(), false);
            lemma_count_where_push(pre.members@, voted_dissolve(), self.members@.last());
            lemma_count_where_push(pre.members@, voted_proposal(), self.members@.last());
            assert(!pre.finalized());
        }
        Ok(())
    }
}

/// Late fee owed on a dues deposit made at `now`: a rate on the base
/// contribution when the deadline has passed, zero otherwise.
pub open spec fn late_fee_due(pre: Circle, now: u64) -> int {
    if now > pre.deadline_timestamp {
        spec_fee_of(pre.contribution, pre.late_fee_bps)
    } else {
        0
    }
}

/// Insurance surcharge collected on every dues deposit.
pub open spec fn insurance_fee_due(pre: Circle) -> int {
    spec_fee_of(pre.contribution, pre.insurance_fee_bps)
}

/// What `deposit` does when it succeeds: the member's slot records the
/// payment, the principal joins the custodied pool, the late fee (if any)
/// joins the group reserve, the surcharge joins the insurance fund, and
/// the deadline rolls forward one cycle duration from the previous
/// deadline, regardless of lateness. The returned amount is
/// what the host must collect from the member.
pub open spec fn deposit_transition(
    pre: Circle,
    post: Circle,
    caller: u64,
    now: u64,
    r: Result<u128, Error>,
) -> bool {
    if pre.is_dissolved {
        r == Err::<u128, Error>(Error::AlreadyDissolved) && post == pre
    } else if !pre.is_member(caller) {
        r == Err::<u128, Error>(Error::MemberNotFound) && post == pre
    } else if !pre.members@[pre.member_index(caller)].is_active() {
        r == Err::<u128, Error>(Error::NotMember) && post == pre
    } else {
        let i = pre.member_index(caller);
        let m = pre.members@[i];
        let paid = (Member {
            contribution_count: m.contribution_count.saturating_add(1),
            last_contribution_time: now,
            total_contributed: m.total_contributed.saturating_add(pre.contribution as u128),
            has_contributed: true,
            ..m
        });
        &&& r == Ok::<u128, Error>(
            (pre.contribution + late_fee_due(pre, now) + insurance_fee_due(pre)) as u128,
        )
        &&& post.members@ == pre.members@.update(i, paid)
        &&& post.balance == pre.balance.saturating_add(pre.contribution as u128)
        &&& post.group_reserve == pre.group_reserve.saturating_add(late_fee_due(pre, now) as u128)
        &&& post.insurance_balance == pre.insurance_balance.saturating_add(
            insurance_fee_due(pre) as u128,
        )
        &&& post.deadline_timestamp == pre.deadline_timestamp.saturating_add(pre.cycle_duration)
        &&& post == (Circle {
            members: post.members,
            balance: post.balance,
            group_reserve: post.group_reserve,
            insurance_balance: post.insurance_balance,
            deadline_timestamp: post.deadline_timestamp,
            ..pre
        })
    }
}

impl Circle {
    /// Record the dues deposit of `caller` made at time `now` and return
    /// the total amount the host must collect: the contribution, plus
    /// the late fee when `now` is past the deadline (routed to the group
    /// reserve, not the protocol treasury), plus the insurance
    /// surcharge. The late fee is computed on the base contribution
    /// alone. The dues deadline rolls forward one cycle duration from
    /// the previous deadline, whether or not the deposit was late.
    /// Fails with `AlreadyDissolved` on a dissolved circle,
    /// `MemberNotFound` for a stranger, and `NotMember` for a slot that
    /// is not active.
    pub fn deposit(&mut self, caller: u64, now: u64) -> (r: Result<u128, Error>)
        requires
            old(self).wf(),
        ensures
            final(self).wf(),
            deposit_transition(*old(self), *final(self), caller, now, r),
    {
        if self.is_dissolved {
            return Err(Error::AlreadyDissolved);
        }
        let idx = match self.find_member(caller) {
            Some(i) => i,
            None => { return Err(Error::MemberNotFound) },
        };
        if !(self.members[idx].status == MemberStatus::Active) {
            proof {
                lemma_index_of_unique(self.member_ids(), idx as int);
            }
            return Err(Error::NotMember);
        }
        proof {
            lemma_index_of_unique(self.member_ids(), idx as int);
        }
        let late_fee: u64 = if now > self.deadline_timestamp {
            fee_of(self.contribution, self.late_fee_bps)
        } else {
            0
        };
        let insurance_fee: u64 = fee_of(self.contribution, self.insurance_fee_bps);
        let total: u128 = self.contribution as u128 + late_fee as u128 + insurance_fee as u128;
        let ghost pre = *self;
        self.balance = self.balance.saturating_add(self.contribution as u128);
        self.group_reserve = self.group_reserve.saturating_add(late_fee as u128);
        self.insurance_balance = self.insurance_balance.saturating_add(insurance_fee as u128);
        let m = self.members[idx];
        let paid = Member {
            contribution_count: m.contribution_count.saturating_add(1),
            last_contribution_time: now,
            total_contributed: m.total_contributed.saturating_add(self.contribution as u128),
            has_contributed: true,
            ..m
        };
        self.members[idx] = paid;
        self.deadline_timestamp = self.deadline_timestamp.saturating_add(self.cycle_duration);
        proof {
            assert(self.member_ids() =~= pre.member_ids());
            lemma_count_where_update(pre.members@, voted_dissolve(), idx as int, paid);
            lemma_count_where_update(pre.members@, voted_proposal(), idx as int, paid);
        }
        Ok(total)
    }
}

/// A payout order the engine accepts at finalization: exactly the
/// roster's identities, each once, in any order.
pub open spec fn valid_payout_order(pre: Circle, q: Seq<u64>) -> bool {
    &&& q.len() == pre.members@.len()
    &&& q.no_duplicates()
    &&& forall|a: u64| q.contains(a) <==> pre.member_ids().contains(a)
}

/// What `finalize` does: commits the payout order exactly once. A second
/// call is a no-op. For a randomized circle the host supplies the
/// shuffled order, which is accepted only if it is a permutation of the
/// roster; a sequential circle commits the join order.
pub open spec fn finalize_transition(
    pre: Circle,
    post: Circle,
    caller: u64,
    order: Option<Seq<u64>>,
    r: Result<(), Error>,
) -> bool {
    if pre.admin != caller {
        r == Err::<(), Error>(Error::Unauthorized) && post == pre
    } else if pre.finalized() {
        r == Ok::<(), Error>(()) && post == pre
    } else if pre.is_random_queue {
        match order {
            Option::Some(q) => {
                if valid_payout_order(pre, q) {
                    &&& r == Ok::<(), Error>(())
                    &&& post.payout_queue@ == q
                    &&& post == (Circle { payout_queue: post.payout_queue, ..pre })
                } else {
                    r == Err::<(), Error>(Error::InvalidCircleState) && post == pre
                }
            },
            Option::None => r == Err::<(), Error>(Error::InvalidCircleState) && post == pre,
        }
    } else {
        &&& r == Ok::<(), Error>(())
        &&& post.payout_queue@ == pre.member_ids()
        &&& post == (Circle { payout_queue: post.payout_queue, ..pre })
    }
}

impl Circle {
    /// Whether `q` is a permutation of the roster's identities.
    fn is_valid_order(&self, q: &Vec<u64>) -> (r: bool)
        ensures
            r == valid_payout_order(*self, q@),
    {
        if q.len() != self.members.len() {
            return false;
        }
        let mut k: usize = 0;
        while k < q.len()
            invariant
                k <= q@.len(),
                q@.len() == self.members@.len(),
                forall|i: int, j: int| 0 <= i < j < k ==> q@[i] != q@[j],
                forall|i: int| 0 <= i < k ==> self.member_ids().contains(#[trigger] q@[i]),
                forall|i: int|
                    0 <= i < k ==> q@.contains(#[trigger] self.members@[i].address),
            decreases q@.len() - k,
        {
            // the identity must hold a slot
            if self.find_member(q[k]).is_none() {
                proof {
                    assert(q@.contains(q@[k as int]));
                }
                return false;
            }
            // and must not repeat an earlier entry
            let mut j: usize = 0;
            while j < k
                invariant
                    j <= k < q@.len(),
                    forall|i: int| 0 <= i < j ==> q@[i] != q@[k as int],
                decreases k - j,
            {
                if q[j] == q[k] {
                    assert(!q@.no_duplicates());
                    return false;
                }
                j += 1;
            }
            // and the k-th roster identity must appear in the order
            let mut found: bool = false;
            let mut t: usize = 0;
            let target = self.members[k].address;
            while t < q.len()
                invariant
                    t <= q@.len(),
                    k < q@.len() == self.members@.len(),
                    target == self.members@[k as int].address,
                    found <==> exists|i: int| 0 <= i < t && q@[i] == target,
                decreases q@.len() - t,
            {
                if q[t] == target {
                    found = true;
                }
                t += 1;
            }
            if !found {
                proof {
                    assert(self.member_ids()[k as int] == target);
                    assert(!q@.contains(target));
                }
                return false;
            }
            k += 1;
        }
        proof {
            assert forall|a: u64| q@.contains(a) <==> self.member_ids().contains(a) by {
                if q@.contains(a) {
                    let i = choose|i: int| 0 <= i < q@.len() && q@[i] == a;
                    assert(self.member_ids().contains(q@[i]));
                }
                if self.member_ids().contains(a) {
                    let i = choose|i: int|
                        0 <= i < self.member_ids().len() && self.member_ids()[i] == a;
                    assert(q@.contains(self.members@[i].address));
                }
            }
        }
        true
    }

    /// Commit the payout order. Admin-only; idempotent once finalized
    /// (`Ok`, queue unchanged). A randomized circle requires the host to
    /// pass a shuffled order covering the roster exactly
    /// (`InvalidCircleState` otherwise); the engine never shuffles
    /// itself. A sequential circle commits the join order.
    pub fn finalize(&mut self, caller: u64, order: Option<&Vec<u64>>) -> (r: Result<(), Error>)
        requires
            old(self).wf(),
        ensures
            final(self).wf(),
            finalize_transition(
                *old(self),
                *final(self),
                caller,
                match order {
                    Option::Some(v) => Option::Some(v@),
                    Option::None => Option::None,
                },
                r,
            ),
    {
        if self.admin != caller {
            return Err(Error::Unauthorized);
        }
        if !self.payout_queue.is_empty() {
            return Ok(());
        }
        if self.is_random_queue {
            let q = match order {
                Some(v) => v,
                None => { return Err(Error::InvalidCircleState) },
            };
            if !self.is_valid_order(q) {
                return Err(Error::InvalidCircleState);
            }
            let ghost pre = *self;
            let committed = copy_values(q);
            self.payout_queue = committed;
            proof {
                assert(self.payout_queue@ =~= q@);
                assert(self.member_ids() =~= pre.member_ids());
            }
            Ok(())
        } else {
            let ghost pre = *self;
            let mut q: Vec<u64> = Vec::new();
            let mut i: usize = 0;
            while i < self.members.len()
                invariant
                    i <= self.members@.len(),
                    q@.len() == i,
                    forall|j: int| 0 <= j < i ==> q@[j] == self.member_ids()[j],
                decreases self.members@.len() - i,
            {
                q.push(self.members[i].address);
                i += 1;
            }
            self.payout_queue = q;
            proof {
                assert(self.payout_queue@ =~= pre.member_ids());
                assert(self.member_ids() =~= pre.member_ids());
            }
            Ok(())
        }
    }
}

/// What a successful payout instructs the host to transfer, strictly
/// after the engine has committed its state: the net amount to the
/// recipient, then (when nonzero) the fee to the treasury, and a
/// `CycleCompleted` event when this payout closed the cycle.
#[derive(Clone, Copy, Debug, PartialEq, Eq, Structural)]
pub struct PayoutOutcome {
    /// Slot of the member that was paid.
    pub member_index: u32,
    /// Gross amount disbursed: the circle's contribution.
    pub gross_amount: u64,
    /// Amount owed to the recipient after the protocol fee.
    pub net_amount: u64,
    /// Protocol fee owed to the treasury.
    pub fee_amount: u64,
    /// Whether this payout was the cycle's last.
    pub cycle_completed: bool,
    /// Volume distributed in the cycle so far, for the event payload.
    pub total_volume_distributed: u128,
}

/// What `process_payout` does: in checks-effects-interactions order, the
/// recipient's slot is checked, the custodied balance is checked against
/// the gross payout and debited, the payout flag and tallies are
/// committed, and only then does the returned outcome instruct the host
/// to transfer.
pub open spec fn payout_transition(
    pre: Circle,
    post: Circle,
    caller: u64,
    recipient: u64,
    fee_bps: u32,
    treasury: Option<u64>,
    r: Result<PayoutOutcome, Error>,
) -> bool {
    let fee = spec_fee_of(pre.contribution, fee_bps);
    if pre.admin != caller {
        r == Err::<PayoutOutcome, Error>(Error::Unauthorized) && post == pre
    } else if !pre.is_member(recipient) {
        r == Err::<PayoutOutcome, Error>(Error::MemberNotFound) && post == pre
    } else if !pre.members@[pre.member_index(recipient)].is_active() {
        r == Err::<PayoutOutcome, Error>(Error::NotMember) && post == pre
    } else if pre.has_received_payout@[pre.member_index(recipient)] {
        r == Err::<PayoutOutcome, Error>(Error::PayoutAlreadyReceived) && post == pre
    } else if pre.balance < pre.contribution {
        r == Err::<PayoutOutcome, Error>(Error::InsufficientBalance) && post == pre
    } else if fee > 0 && treasury is None {
        r == Err::<PayoutOutcome, Error>(Error::InvalidFeeConfig) && post == pre
    } else {
        let i = pre.member_index(recipient);
        &&& r == Ok::<PayoutOutcome, Error>(
            (PayoutOutcome {
                member_index: i as u32,
                gross_amount: pre.contribution,
                net_amount: (pre.contribution - fee) as u64,
                fee_amount: fee as u64,
                cycle_completed: pre.paid_count() + 1 == pre.member_count(),
                total_volume_distributed: (pre.total_volume_distributed
                    + pre.contribution) as u128,
            }),
        )
        &&& post.has_received_payout@ == pre.has_received_payout@.update(i, true)
        &&& post.current_payout_index as int == pre.current_payout_index as int + 1
        &&& post.total_volume_distributed as int == pre.total_volume_distributed as int
            + pre.contribution as int
        &&& post.balance as int == pre.balance as int - pre.contribution as int
        &&& post == (Circle {
            has_received_payout: post.has_received_payout,
            current_payout_index: post.current_payout_index,
            total_volume_distributed: post.total_volume_distributed,
            balance: post.balance,
            ..pre
        })
    }
}

/// What `rollover` does: once every slot is paid, the cycle number
/// advances and the per-cycle tallies — payout flags, dues flags,
/// payout index, distributed volume, the insurance-use flag — are
/// reset. The committed payout order is untouched and is reused.
pub open spec fn rollover_transition(pre: Circle, post: Circle, caller: u64, r: Result<
    u32,
    Error,
>) -> bool {
    if pre.admin != caller {
        r == Err::<u32, Error>(Error::Unauthorized) && post == pre
    } else if pre.paid_count() != pre.member_count() {
        r == Err::<u32, Error>(Error::CycleNotComplete) && post == pre
    } else {
        &&& r == Ok::<u32, Error>(pre.cycle_number.saturating_add(1))
        &&& post.cycle_number == pre.cycle_number.saturating_add(1)
        &&& post.current_payout_index == 0
        &&& post.total_volume_distributed == 0
        &&& post.has_received_payout@ == Seq::new(pre.members@.len(), |i: int| false)
        &&& post.members@ == pre.members@.map_values(
            |m: Member| (Member { has_contributed: false, ..m }),
        )
        &&& !post.is_insurance_used
        &&& post == (Circle {
            cycle_number: post.cycle_number,
            current_payout_index: 0,
            total_volume_distributed: 0,
            has_received_payout: post.has_received_payout,
            members: post.members,
            is_insurance_used: false,
            ..pre
        })
    }
}

impl Circle {
    /// Pay the cycle's gross amount (one contribution) to `recipient`.
    /// Admin-only. Fails with `MemberNotFound` for a stranger,
    /// `NotMember` for an inactive slot, `PayoutAlreadyReceived` if the
    /// slot was already paid this cycle, `InsufficientBalance` when the
    /// custodied pool cannot cover the gross amount (the balance is
    /// checked and debited before any transfer is instructed, so a
    /// reentrant call observes committed state), and `InvalidFeeConfig`
    /// when a nonzero protocol fee is due but no treasury is configured.
    pub fn process_payout(
        &mut self,
        caller: u64,
        recipient: u64,
        fee_bps: u32,
        treasury: Option<u64>,
    ) -> (r: Result<PayoutOutcome, Error>)
        requires
            old(self).wf(),
            fee_bps <= MAX_BASIS_POINTS,
        ensures
            final(self).wf(),
            payout_transition(*old(self), *final(self), caller, recipient, fee_bps, treasury, r),
    {
        if self.admin != caller {
            return Err(Error::Unauthorized);
        }
        let idx = match self.find_member(recipient) {
            Some(i) => i,
            None => { return Err(Error::MemberNotFound) },
        };
        proof {
            lemma_index_of_unique(self.member_ids(), idx as int);
        }
        if !(self.members[idx].status == MemberStatus::Active) {
            return Err(Error::NotMember);
        }
        if self.has_received_payout[idx] {
            return Err(Error::PayoutAlreadyReceived);
        }
        if self.balance < self.contribution as u128 {
            return Err(Error::InsufficientBalance);
        }
        let fee = fee_of(self.contribution, fee_bps);
        if fee > 0 && treasury.is_none() {
            return Err(Error::InvalidFeeConfig);
        }
        let ghost pre = *self;
        proof {
            lemma_count_where_bounds(self.has_received_payout@, flag_set());
            lemma_count_where_all(self.has_received_payout@, flag_set());
            lemma_count_where_update(pre.has_received_payout@, flag_set(), idx as int, true);
            assert(pre.contribution as int * (pre.paid_count() + 1) == pre.contribution as int
                * pre.paid_count() + pre.contribution as int) by (nonlinear_arith);
            assert(pre.contribution as int * (pre.paid_count() + 1) <= pre.contribution as int
                * (MAX_MEMBERS as int)) by (nonlinear_arith)
                requires
                    pre.paid_count() + 1 <= MAX_MEMBERS as int,
                    pre.contribution >= 0,
            ;
        }
        self.has_received_payout[idx] = true;
        self.current_payout_index = self.current_payout_index + 1;
        self.total_volume_distributed = self.total_volume_distributed + self.contribution as u128;
        self.balance = self.balance - self.contribution as u128;
        let completed = self.current_payout_index as usize == self.members.len();
        Ok(
            PayoutOutcome {
                member_index: idx as u32,
                gross_amount: self.contribution,
                net_amount: self.contribution - fee,
                fee_amount: fee,
                cycle_completed: completed,
                total_volume_distributed: self.total_volume_distributed,
            },
        )
    }

    /// Close a completed cycle and open the next one. Admin-only; fails
    /// with `CycleNotComplete` unless every slot was paid. Resets every
    /// per-cycle flag and tally and rebuilds the payout flags afresh;
    /// the committed payout order is preserved for the next cycle.
    /// Returns the new cycle number for the host's rollover event.
    pub fn rollover(&mut self, caller: u64) -> (r: Result<u32, Error>)
        requires
            old(self).wf(),
        ensures
            final(self).wf(),
            rollover_transition(*old(self), *final(self), caller, r),
    {
        if self.admin != caller {
            return Err(Error::Unauthorized);
        }
        if (self.current_payout_index as usize) != self.members.len() {
            return Err(Error::CycleNotComplete);
        }
        let ghost pre = *self;
        let mut fresh_flags: Vec<bool> = Vec::new();
        let mut i: usize = 0;
        while i < self.members.len()
            invariant
                i <= self.members@.len(),
                fresh_flags@.len() == i,
                forall|j: int| 0 <= j < i ==> !fresh_flags@[j],
            decreases self.members@.len() - i,
        {
            fresh_flags.push(false);
            i += 1;
        }
        let mut cleared: Vec<Member> = Vec::new();
        let mut k: usize = 0;
        while k < self.members.len()
            invariant
                k <= self.members@.len(),
                cleared@.len() == k,
                forall|j: int|
                    0 <= j < k ==> cleared@[j] == (Member {
                        has_contributed: false,
                        ..self.members@[j]
                    }),
            decreases self.members@.len() - k,
        {
            let m = self.members[k];
            cleared.push(Member { has_contributed: false, ..m });
            k += 1;
        }
        self.cycle_number = self.cycle_number.saturating_add(1);
        self.current_payout_index = 0;
        self.total_volume_distributed = 0;
        self.has_received_payout = fresh_flags;
        self.members = cleared;
        self.is_insurance_used = false;
        proof {
            let clear_one = |m: Member| (Member { has_contributed: false, ..m });
            assert(self.has_received_payout@ =~= Seq::new(pre.members@.len(), |i: int| false));
            assert(self.members@ =~= pre.members@.map_values(clear_one));
            assert(self.members@ =~= pre.members@.map_values(
                |m: Member| (Member { has_contributed: false, ..m }),
            ));
            lemma_count_where_map(pre.members@, clear_one, voted_dissolve(), voted_dissolve());
            lemma_count_where_map(pre.members@, clear_one, voted_proposal(), voted_proposal());
            assert(self.member_ids() =~= pre.member_ids());
            lemma_count_where_zero(self.has_received_payout@, flag_set());
        }
        Ok(self.cycle_number)
    }
}

/// What `vote_dissolve` does: one vote per active member; the circle
/// dissolves the instant the votes reach a strict majority of the
/// roster. Dissolution is monotonic: it is never un-set, and a vote on a
/// dissolved circle is refused.
pub open spec fn vote_dissolve_transition(pre: Circle, post: Circle, caller: u64, r: Result<
    bool,
    Error,
>) -> bool {
    if pre.is_dissolved {
        r == Err::<bool, Error>(Error::AlreadyDissolved) && post == pre
    } else if !pre.is_active_member(caller) {
        r == Err::<bool, Error>(Error::NotMember) && post == pre
    } else if pre.members@[pre.member_index(caller)].has_voted_dissolve {
        r == Err::<bool, Error>(Error::AlreadyVoted) && post == pre
    } else {
        let i = pre.member_index(caller);
        let m = pre.members@[i];
        let dissolved = 2 * (pre.dissolution_votes + 1) > pre.member_count();
        &&& r == Ok::<bool, Error>(dissolved)
        &&& post.members@ == pre.members@.update(i, (Member { has_voted_dissolve: true, ..m }))
        &&& post.dissolution_votes as int == pre.dissolution_votes as int + 1
        &&& post.is_dissolved == dissolved
        &&& post == (Circle {
            members: post.members,
            dissolution_votes: post.dissolution_votes,
            is_dissolved: post.is_dissolved,
            ..pre
        })
    }
}

/// What `withdraw_pro_rata` does: after dissolution a member reclaims
/// what the slot paid in, less one contribution if the slot was paid
/// this cycle; the ledger entry is zeroed, so a second call returns 0
/// rather than an error.
pub open spec fn withdraw_transition(pre: Circle, post: Circle, caller: u64, r: Result<
    u128,
    Error,
>) -> bool {
    if !pre.is_dissolved {
        r == Err::<u128, Error>(Error::NotDissolved) && post == pre
    } else if !pre.is_member(caller) {
        r == Err::<u128, Error>(Error::MemberNotFound) && post == pre
    } else {
        let i = pre.member_index(caller);
        let m = pre.members@[i];
        let offset = if pre.has_received_payout@[i] {
            pre.contribution as int
        } else {
            0
        };
        let refund = if m.total_contributed > offset {
            m.total_contributed - offset
        } else {
            0
        };
        if refund > pre.balance {
            r == Err::<u128, Error>(Error::InsufficientBalance) && post == pre
        } else {
            &&& r == Ok::<u128, Error>(refund as u128)
            &&& post.members@ == pre.members@.update(i, (Member { total_contributed: 0, ..m }))
            &&& post.balance as int == pre.balance as int - refund
            &&& post == (Circle { members: post.members, balance: post.balance, ..pre })
        }
    }
}

/// What `trigger_insurance_coverage` does: the admin covers one
/// defaulting member's dues out of the insurance fund, at most once per
/// cycle, moving exactly one contribution from the fund into the payout
/// pool and marking the slot as contributed.
pub open spec fn insurance_transition(
    pre: Circle,
    post: Circle,
    caller: u64,
    member: u64,
    r: Result<(), Error>,
) -> bool {
    if pre.admin != caller {
        r == Err::<(), Error>(Error::Unauthorized) && post == pre
    } else if pre.is_insurance_used {
        r == Err::<(), Error>(Error::InvalidCircleState) && post == pre
    } else if pre.insurance_balance < pre.contribution {
        r == Err::<(), Error>(Error::InsufficientBalance) && post == pre
    } else if !pre.is_member(member) {
        r == Err::<(), Error>(Error::MemberNotFound) && post == pre
    } else if !pre.members@[pre.member_index(member)].is_active() {
        r == Err::<(), Error>(Error::NotMember) && post == pre
    } else if pre.members@[pre.member_index(member)].has_contributed {
        r == Err::<(), Error>(Error::InvalidCircleState) && post == pre
    } else {
        let i = pre.member_index(member);
        let m = pre.members@[i];
        &&& r == Ok::<(), Error>(())
        &&& post.members@ == pre.members@.update(i, (Member { has_contributed: true, ..m }))
        &&& post.insurance_balance as int == pre.insurance_balance as int
            - pre.contribution as int
        &&& post.balance == pre.balance.saturating_add(pre.contribution as u128)
        &&& post.is_insurance_used
        &&& post == (Circle {
            members: post.members,
            insurance_balance: post.insurance_balance,
            balance: post.balance,
            is_insurance_used: true,
            ..pre
        })
    }
}

/// A roster with every proposal-vote flag cleared.
pub open spec fn proposal_votes_cleared(members: Seq<Member>) -> Seq<Member> {
    members.map_values(|m: Member| (Member { has_voted_proposal: false, ..m }))
}

/// What `propose_penalty_change` does: an active member opens a fresh
/// late-fee proposal, wiping any previous vote tally and auto-casting
/// the proposer's vote; if that single vote is already a strict majority
/// (a one-member circle), the rate is adopted and the proposal cleared
/// at once.
pub open spec fn propose_transition(
    pre: Circle,
    post: Circle,
    caller: u64,
    new_bps: u32,
    r: Result<bool, Error>,
) -> bool {
    if !pre.is_member(caller) {
        r == Err::<bool, Error>(Error::MemberNotFound) && post == pre
    } else if !pre.members@[pre.member_index(caller)].is_active() {
        r == Err::<bool, Error>(Error::NotMember) && post == pre
    } else if new_bps > MAX_BASIS_POINTS {
        r == Err::<bool, Error>(Error::InvalidFeeConfig) && post == pre
    } else {
        let i = pre.member_index(caller);
        let adopted = 2 > pre.member_count();
        if adopted {
            &&& r == Ok::<bool, Error>(true)
            &&& post.members@ == proposal_votes_cleared(pre.members@)
            &&& post == (Circle {
                members: post.members,
                late_fee_bps: new_bps,
                proposed_late_fee_bps: 0,
                proposal_votes: 0,
                ..pre
            })
        } else {
            &&& r == Ok::<bool, Error>(false)
            &&& post.members@ == proposal_votes_cleared(pre.members@).update(
                i,
                (Member { has_voted_proposal: true, ..pre.members@[i] }),
            )
            &&& post == (Circle {
                members: post.members,
                proposed_late_fee_bps: new_bps,
                proposal_votes: 1,
                ..pre
            })
        }
    }
}

/// What `vote_penalty_change` does: an active member backs the open
/// proposal; a repeated vote is recorded idempotently, and the quorum is
/// re-evaluated on every vote (so a vote can adopt the rate after the
/// roster shrank). On adoption the rate is installed and the proposal
/// and its votes are cleared.
pub open spec fn vote_penalty_transition(pre: Circle, post: Circle, caller: u64, r: Result<
    bool,
    Error,
>) -> bool {
    if !pre.is_member(caller) {
        r == Err::<bool, Error>(Error::MemberNotFound) && post == pre
    } else if !pre.members@[pre.member_index(caller)].is_active() {
        r == Err::<bool, Error>(Error::NotMember) && post == pre
    } else if pre.proposed_late_fee_bps == 0 {
        r == Err::<bool, Error>(Error::InvalidCircleState) && post == pre
    } else {
        let i = pre.member_index(caller);
        let m = pre.members@[i];
        let tally = if m.has_voted_proposal {
            pre.proposal_votes as int
        } else {
            pre.proposal_votes as int + 1
        };
        let adopted = 2 * tally > pre.member_count();
        if adopted {
            &&& r == Ok::<bool, Error>(true)
            &&& post.members@ == proposal_votes_cleared(pre.members@)
            &&& post == (Circle {
                members: post.members,
                late_fee_bps: pre.proposed_late_fee_bps,
                proposed_late_fee_bps: 0,
                proposal_votes: 0,
                ..pre
            })
        } else {
            &&& r == Ok::<bool, Error>(false)
            &&& post.members@ == pre.members@.update(
                i,
                (Member { has_voted_proposal: true, ..m }),
            )
            &&& post.proposal_votes as int == tally
            &&& post == (Circle {
                members: post.members,
                proposal_votes: post.proposal_votes,
                ..pre
            })
        }
    }
}

/// What `request_exit` does: an active member announces a graceful
/// exit. The slot moves to `AwaitingReplacement`: its bookkeeping is
/// kept, but the member can no longer deposit, vote or be paid, and a
/// swap later installs the replacement in the same slot, with the
/// ledger.
pub open spec fn request_exit_transition(pre: Circle, post: Circle, caller: u64, r: Result<
    (),
    Error,
>) -> bool {
    if !pre.is_member(caller) {
        r == Err::<(), Error>(Error::MemberNotFound) && post == pre
    } else if !pre.members@[pre.member_index(caller)].is_active() {
        r == Err::<(), Error>(Error::NotMember) && post == pre
    } else {
        let i = pre.member_index(caller);
        let m = pre.members@[i];
        &&& r == Ok::<(), Error>(())
        &&& post.members@ == pre.members@.update(
            i,
            (Member { status: MemberStatus::AwaitingReplacement, ..m }),
        )
        &&& post == (Circle { members: post.members, ..pre })
    }
}

/// What `eject` does: the admin marks a slot `Ejected`. The slot and its
/// bookkeeping are preserved — the member keeps their ledger and queue
/// position — but an ejected member can neither deposit, vote, nor be
/// paid. The slot's index is returned for the host's bookkeeping (such
/// as burning a membership token).
pub open spec fn eject_transition(pre: Circle, post: Circle, caller: u64, member: u64, r: Result<
    u32,
    Error,
>) -> bool {
    if pre.admin != caller {
        r == Err::<u32, Error>(Error::Unauthorized) && post == pre
    } else if !pre.is_member(member) {
        r == Err::<u32, Error>(Error::MemberNotFound) && post == pre
    } else if pre.members@[pre.member_index(member)].status == MemberStatus::Ejected {
        r == Err::<u32, Error>(Error::InvalidCircleState) && post == pre
    } else {
        let i = pre.member_index(member);
        let m = pre.members@[i];
        &&& r == Ok::<u32, Error>(i as u32)
        &&& post.members@ == pre.members@.update(
            i,
            (Member { status: MemberStatus::Ejected, ..m }),
        )
        &&& post == (Circle { members: post.members, ..pre })
    }
}

impl Circle {
    /// Cast `caller`'s dissolution vote. Any active member votes once
    /// (`AlreadyVoted` on a repeat, `NotMember` for strangers and
    /// inactive slots); the circle dissolves the instant the votes reach
    /// a strict majority of the roster, and stays dissolved. Returns
    /// whether the circle is now dissolved.
    pub fn vote_dissolve(&mut self, caller: u64) -> (r: Result<bool, Error>)
        requires
            old(self).wf(),
        ensures
            final(self).wf(),
            vote_dissolve_transition(*old(self), *final(self), caller, r),
    {
        if self.is_dissolved {
            return Err(Error::AlreadyDissolved);
        }
        let idx = match self.find_member(caller) {
            Some(i) => i,
            None => { return Err(Error::NotMember) },
        };
        proof {
            lemma_index_of_unique(self.member_ids(), idx as int);
        }
        if !(self.members[idx].status == MemberStatus::Active) {
            return Err(Error::NotMember);
        }
        if self.members[idx].has_voted_dissolve {
            return Err(Error::AlreadyVoted);
        }
        let ghost pre = *self;
        proof {
            lemma_count_where_bounds(self.members@, voted_dissolve());
            lemma_count_where_update(
                pre.members@,
                voted_dissolve(),
                idx as int,
                (Member { has_voted_dissolve: true, ..pre.members@[idx as int] }),
            );
            lemma_count_where_update(
                pre.members@,
                voted_proposal(),
                idx as int,
                (Member { has_voted_dissolve: true, ..pre.members@[idx as int] }),
            );
        }
        let m = self.members[idx];
        self.members[idx] = Member { has_voted_dissolve: true, ..m };
        self.dissolution_votes = self.dissolution_votes + 1;
        if 2 * self.dissolution_votes > self.members.len() as u32 {
            self.is_dissolved = true;
        }
        proof {
            assert(self.member_ids() =~= pre.member_ids());
        }
        Ok(self.is_dissolved)
    }

    /// Reclaim `caller`'s net contributions after dissolution: what the
    /// slot paid in, less one contribution if it was paid this cycle.
    /// Zeroes the ledger entry, so the call is idempotent (a second call
    /// returns 0). Fails with `NotDissolved` while the circle lives and
    /// `InsufficientBalance` if the pool cannot cover the refund. The
    /// host transfers the returned amount after the state is committed.
    pub fn withdraw_pro_rata(&mut self, caller: u64) -> (r: Result<u128, Error>)
        requires
            old(self).wf(),
        ensures
            final(self).wf(),
            withdraw_transition(*old(self), *final(self), caller, r),
    {
        if !self.is_dissolved {
            return Err(Error::NotDissolved);
        }
        let idx = match self.find_member(caller) {
            Some(i) => i,
            None => { return Err(Error::MemberNotFound) },
        };
        proof {
            lemma_index_of_unique(self.member_ids(), idx as int);
        }
        let m = self.members[idx];
        let offset: u128 = if self.has_received_payout[idx] {
            self.contribution as u128
        } else {
            0
        };
        let refund: u128 = if m.total_contributed > offset {
            m.total_contributed - offset
        } else {
            0
        };
        if refund > self.balance {
            return Err(Error::InsufficientBalance);
        }
        let ghost pre = *self;
        proof {
            lemma_count_where_update(
                pre.members@,
                voted_dissolve(),
                idx as int,
                (Member { total_contributed: 0, ..pre.members@[idx as int] }),
            );
            lemma_count_where_update(
                pre.members@,
                voted_proposal(),
                idx as int,
                (Member { total_contributed: 0, ..pre.members@[idx as int] }),
            );
        }
        self.members[idx] = Member { total_contributed: 0, ..m };
        self.balance = self.balance - refund;
        proof {
            assert(self.member_ids() =~= pre.member_ids());
        }
        Ok(refund)
    }

    /// Cover `member`'s dues for this cycle out of the insurance fund.
    /// Admin-only; usable once per cycle (`InvalidCircleState` on a
    /// repeat), requires the fund to hold at least one contribution
    /// (`InsufficientBalance`), and refuses slots that are absent,
    /// inactive or already covered. Moves exactly one contribution from
    /// the fund into the payout pool.
    pub fn trigger_insurance_coverage(&mut self, caller: u64, member: u64) -> (r: Result<
        (),
        Error,
    >)
        requires
            old(self).wf(),
        ensures
            final(self).wf(),
            insurance_transition(*old(self), *final(self), caller, member, r),
    {
        if self.admin != caller {
            return Err(Error::Unauthorized);
        }
        if self.is_insurance_used {
            return Err(Error::InvalidCircleState);
        }
        if self.insurance_balance < self.contribution as u128 {
            return Err(Error::InsufficientBalance);
        }
        let idx = match self.find_member(member) {
            Some(i) => i,
            None => { return Err(Error::MemberNotFound) },
        };
        proof {
            lemma_index_of_unique(self.member_ids(), idx as int);
        }
        if !(self.members[idx].status == MemberStatus::Active) {
            return Err(Error::NotMember);
        }
        if self.members[idx].has_contributed {
            return Err(Error::InvalidCircleState);
        }
        let ghost pre = *self;
        proof {
            lemma_count_where_update(
                pre.members@,
                voted_dissolve(),
                idx as int,
                (Member { has_contributed: true, ..pre.members@[idx as int] }),
            );
            lemma_count_where_update(
                pre.members@,
                voted_proposal(),
                idx as int,
                (Member { has_contributed: true, ..pre.members@[idx as int] }),
            );
        }
        let m = self.members[idx];
        self.members[idx] = Member { has_contributed: true, ..m };
        self.insurance_balance = self.insurance_balance - self.contribution as u128;
        self.balance = self.balance.saturating_add(self.contribution as u128);
        self.is_insurance_used = true;
        proof {
            assert(self.member_ids() =~= pre.member_ids());
        }
        Ok(())
    }

    /// Clear every proposal-vote flag on the roster.
    fn clear_proposal_votes(&mut self)
        requires
            old(self).wf(),
        ensures
            final(self).members@ == proposal_votes_cleared(old(self).members@),
            *final(self) == (Circle { members: final(self).members, ..*old(self) }),
    {
        let ghost pre = *self;
        let mut cleared: Vec<Member> = Vec::new();
        let mut k: usize = 0;
        while k < self.members.len()
            invariant
                k <= self.members@.len(),
                cleared@.len() == k,
                forall|j: int|
                    0 <= j < k ==> cleared@[j] == (Member {
                        has_voted_proposal: false,
                        ..self.members@[j]
                    }),
            decreases self.members@.len() - k,
        {
            let m = self.members[k];
            cleared.push(Member { has_voted_proposal: false, ..m });
            k += 1;
        }
        self.members = cleared;
        proof {
            assert(self.members@ =~= proposal_votes_cleared(pre.members@));
        }
    }

    /// Open a late-fee proposal at `new_bps` (at most the whole,
    /// `InvalidFeeConfig` otherwise). Any active member may propose; the
    /// previous tally is wiped and the proposer's vote is cast at once,
    /// which on a one-member roster already adopts the rate. Returns
    /// whether the rate was adopted immediately.
    pub fn propose_penalty_change(&mut self, caller: u64, new_bps: u32) -> (r: Result<
        bool,
        Error,
    >)
        requires
            old(self).wf(),
        ensures
            final(self).wf(),
            propose_transition(*old(self), *final(self), caller, new_bps, r),
    {
        let idx = match self.find_member(caller) {
            Some(i) => i,
            None => { return Err(Error::MemberNotFound) },
        };
        proof {
            lemma_index_of_unique(self.member_ids(), idx as int);
        }
        if !(self.members[idx].status == MemberStatus::Active) {
            return Err(Error::NotMember);
        }
        if new_bps > MAX_BASIS_POINTS {
            return Err(Error::InvalidFeeConfig);
        }
        let ghost pre = *self;
        self.clear_proposal_votes();
        proof {
            let clear_one = |m: Member| (Member { has_voted_proposal: false, ..m });
            lemma_count_where_map(pre.members@, clear_one, voted_proposal(), |m: Member| false);
            lemma_count_where_zero(self.members@, voted_proposal());
            lemma_count_where_map(pre.members@, clear_one, voted_dissolve(), voted_dissolve());
            assert(self.member_ids() =~= pre.member_ids());
        }
        if self.members.len() < 2 {
            // the proposer's own vote is already a strict majority
            self.late_fee_bps = new_bps;
            self.proposed_late_fee_bps = 0;
            self.proposal_votes = 0;
            Ok(true)
        } else {
            let ghost mid = *self;
            proof {
                lemma_count_where_update(
                    mid.members@,
                    voted_proposal(),
                    idx as int,
                    (Member { has_voted_proposal: true, ..pre.members@[idx as int] }),
                );
                lemma_count_where_update(
                    mid.members@,
                    voted_dissolve(),
                    idx as int,
                    (Member { has_voted_proposal: true, ..pre.members@[idx as int] }),
                );
            }
            let m = self.members[idx];
            self.members[idx] = Member { has_voted_proposal: true, ..m };
            self.proposed_late_fee_bps = new_bps;
            self.proposal_votes = 1;
            proof {
                assert(self.members@[idx as int] == (Member {
                    has_voted_proposal: true,
                    ..pre.members@[idx as int]
                }));
                assert(self.members@ =~= proposal_votes_cleared(pre.members@).update(
                    idx as int,
                    (Member { has_voted_proposal: true, ..pre.members@[idx as int] }),
                ));
                assert(self.member_ids() =~= pre.member_ids());
            }
            Ok(false)
        }
    }

    /// Back the open late-fee proposal (`InvalidCircleState` when none
    /// is open). A repeat vote is recorded idempotently rather than
    /// refused, and the strict-majority quorum is re-evaluated on every
    /// vote. On adoption the rate is installed and the proposal cleared.
    /// Returns whether the rate was adopted by this vote.
    pub fn vote_penalty_change(&mut self, caller: u64) -> (r: Result<bool, Error>)
        requires
            old(self).wf(),
        ensures
            final(self).wf(),
            vote_penalty_transition(*old(self), *final(self), caller, r),
    {
        let idx = match self.find_member(caller) {
            Some(i) => i,
            None => { return Err(Error::MemberNotFound) },
        };
        proof {
            lemma_index_of_unique(self.member_ids(), idx as int);
        }
        if !(self.members[idx].status == MemberStatus::Active) {
            return Err(Error::NotMember);
        }
        if self.proposed_late_fee_bps == 0 {
            return Err(Error::InvalidCircleState);
        }
        let ghost pre = *self;
        let already = self.members[idx].has_voted_proposal;
        proof {
            lemma_count_where_bounds(self.members@, voted_proposal());
            lemma_count_where_update(
                pre.members@,
                voted_proposal(),
                idx as int,
                (Member { has_voted_proposal: true, ..pre.members@[idx as int] }),
            );
            lemma_count_where_update(
                pre.members@,
                voted_dissolve(),
                idx as int,
                (Member { has_voted_proposal: true, ..pre.members@[idx as int] }),
            );
        }
        let m = self.members[idx];
        self.members[idx] = Member { has_voted_proposal: true, ..m };
        if !already {
            self.proposal_votes = self.proposal_votes + 1;
        }
        proof {
            assert(self.member_ids() =~= pre.member_ids());
            if already {
                assert(self.members@ =~= pre.members@.update(
                    idx as int,
                    (Member { has_voted_proposal: true, ..pre.members@[idx as int] }),
                ));
            }
        }
        if 2 * self.proposal_votes > self.members.len() as u32 {
            let ghost mid = *self;
            self.clear_proposal_votes();
            self.late_fee_bps = self.proposed_late_fee_bps;
            self.proposed_late_fee_bps = 0;
            self.proposal_votes = 0;
            proof {
                let clear_one = |m: Member| (Member { has_voted_proposal: false, ..m });
                assert(self.members@ =~= proposal_votes_cleared(pre.members@));
                lemma_count_where_map(
                    mid.members@,
                    clear_one,
                    voted_proposal(),
                    |m: Member| false,
                );
                lemma_count_where_zero(self.members@, voted_proposal());
                lemma_count_where_map(mid.members@, clear_one, voted_dissolve(), voted_dissolve());
                assert(self.member_ids() =~= pre.member_ids());
            }
            Ok(true)
        } else {
            Ok(false)
        }
    }

    /// Announce `caller`'s graceful exit: the slot keeps its ledger and
    /// queue position but waits for a replacement (installed by a
    /// swap); meanwhile the member can neither deposit, vote, nor be
    /// paid. Fails with `NotMember` if the slot is not active.
    pub fn request_exit(&mut self, caller: u64) -> (r: Result<(), Error>)
        requires
            old(self).wf(),
        ensures
            final(self).wf(),
            request_exit_transition(*old(self), *final(self), caller, r),
    {
        let idx = match self.find_member(caller) {
            Some(i) => i,
            None => { return Err(Error::MemberNotFound) },
        };
        proof {
            lemma_index_of_unique(self.member_ids(), idx as int);
        }
        if !(self.members[idx].status == MemberStatus::Active) {
            return Err(Error::NotMember);
        }
        let ghost pre = *self;
        proof {
            lemma_count_where_update(
                pre.members@,
                voted_dissolve(),
                idx as int,
                (Member { status: MemberStatus::AwaitingReplacement, ..pre.members@[idx as int] }),
            );
            lemma_count_where_update(
                pre.members@,
                voted_proposal(),
                idx as int,
                (Member { status: MemberStatus::AwaitingReplacement, ..pre.members@[idx as int] }),
            );
        }
        let m = self.members[idx];
        self.members[idx] = Member { status: MemberStatus::AwaitingReplacement, ..m };
        proof {
            assert(self.member_ids() =~= pre.member_ids());
        }
        Ok(())
    }

    /// Eject `member` from active standing. Admin-only; the slot, its
    /// ledger and its queue position are preserved, but an ejected
    /// member can neither deposit, vote, nor be paid. Returns the slot's
    /// index for the host's bookkeeping. Fails with `InvalidCircleState`
    /// if the slot is already ejected.
    pub fn eject(&mut self, caller: u64, member: u64) -> (r: Result<u32, Error>)
        requires
            old(self).wf(),
        ensures
            final(self).wf(),
            eject_transition(*old(self), *final(self), caller, member, r),
    {
        if self.admin != caller {
            return Err(Error::Unauthorized);
        }
        let idx = match self.find_member(member) {
            Some(i) => i,
            None => { return Err(Error::MemberNotFound) },
        };
        proof {
            lemma_index_of_unique(self.member_ids(), idx as int);
        }
        if self.members[idx].status == MemberStatus::Ejected {
            return Err(Error::InvalidCircleState);
        }
        let ghost pre = *self;
        proof {
            lemma_count_where_update(
                pre.members@,
                voted_dissolve(),
                idx as int,
                (Member { status: MemberStatus::Ejected, ..pre.members@[idx as int] }),
            );
            lemma_count_where_update(
                pre.members@,
                voted_proposal(),
                idx as int,
                (Member { status: MemberStatus::Ejected, ..pre.members@[idx as int] }),
            );
        }
        let m = self.members[idx];
        self.members[idx] = Member { status: MemberStatus::Ejected, ..m };
        proof {
            assert(self.member_ids() =~= pre.member_ids());
        }
        Ok(m.index)
    }
}

/// What `swap` does: the identity `leaving` is replaced by `incoming`
/// in place. The slot — its queue position, contribution ledger, dues
/// flag and vote flags — is preserved and handed to `incoming`, who
/// holds it in active standing; `leaving`'s ledger entry is thereby
/// transferred whole and `leaving` retains nothing. An ejected slot is
/// not transferable (ejection would otherwise be undone by swapping in
/// a fresh identity); the admin removes such a slot with `kick`.
pub open spec fn swap_transition(
    pre: Circle,
    post: Circle,
    leaving: u64,
    incoming: u64,
    r: Result<(), Error>,
) -> bool {
    if !pre.is_member(leaving) {
        r == Err::<(), Error>(Error::MemberNotFound) && post == pre
    } else if pre.members@[pre.member_index(leaving)].status == MemberStatus::Ejected {
        r == Err::<(), Error>(Error::NotMember) && post == pre
    } else if incoming != leaving && pre.is_member(incoming) {
        r == Err::<(), Error>(Error::MemberAlreadyExists) && post == pre
    } else {
        let i = pre.member_index(leaving);
        let m = pre.members@[i];
        &&& r == Ok::<(), Error>(())
        &&& post.members@ == pre.members@.update(
            i,
            (Member { address: incoming, status: MemberStatus::Active, ..m }),
        )
        &&& post.payout_queue@ == (if pre.payout_queue@.contains(leaving) {
            pre.payout_queue@.update(pre.payout_queue@.index_of(leaving), incoming)
        } else {
            pre.payout_queue@
        })
        &&& post == (Circle { members: post.members, payout_queue: post.payout_queue, ..pre })
    }
}

/// What a successful kick instructs the host to transfer: the refund to
/// the kicked member, and the penalty to the protocol treasury when one
/// is configured (otherwise the penalty stays custodied in the group
/// reserve).
#[derive(Clone, Copy, Debug, PartialEq, Eq, Structural)]
pub struct KickOutcome {
    /// What the member paid in, less the penalty; owed to the member.
    pub refund: u128,
    /// The penalty withheld from the member's contributions.
    pub penalty: u128,
}

/// What `kick` does: the admin removes a member outright. The slot
/// leaves the roster, the payout flags and the payout queue; later
/// slots move up one position; every roster-derived tally is reduced by
/// what the slot carried. The member is refunded what they paid in less
/// the penalty; the whole ledger entry leaves the custodied pool, the
/// penalty going to the treasury when one is configured and to the
/// group reserve otherwise.
pub open spec fn kick_transition(
    pre: Circle,
    post: Circle,
    caller: u64,
    member: u64,
    penalty: u128,
    treasury: Option<u64>,
    r: Result<KickOutcome, Error>,
) -> bool {
    let i = pre.member_index(member);
    let m = pre.members@[i];
    if pre.admin != caller {
        r == Err::<KickOutcome, Error>(Error::Unauthorized) && post == pre
    } else if !pre.is_member(member) {
        r == Err::<KickOutcome, Error>(Error::MemberNotFound) && post == pre
    } else if penalty > m.total_contributed {
        r == Err::<KickOutcome, Error>(Error::PenaltyExceedsContribution) && post == pre
    } else if m.total_contributed > pre.balance {
        r == Err::<KickOutcome, Error>(Error::InsufficientBalance) && post == pre
    } else {
        &&& r == Ok::<KickOutcome, Error>(
            (KickOutcome { refund: (m.total_contributed - penalty) as u128, penalty }),
        )
        &&& post.members@.len() == pre.members@.len() - 1
        &&& (forall|j: int| 0 <= j < i ==> post.members@[j] == pre.members@[j])
        &&& (forall|j: int|
            i <= j < post.members@.len() ==> post.members@[j] == (Member {
                index: (pre.members@[j + 1].index - 1) as u32,
                ..pre.members@[j + 1]
            }))
        &&& post.has_received_payout@ == pre.has_received_payout@.remove(i)
        &&& post.payout_queue@ == (if pre.payout_queue@.contains(member) {
            pre.payout_queue@.remove(pre.payout_queue@.index_of(member))
        } else {
            pre.payout_queue@
        })
        &&& post.current_payout_index as int == pre.current_payout_index as int - (if pre
            .has_received_payout@[i] {
            1int
        } else {
            0int
        })
        &&& post.total_volume_distributed as int == pre.total_volume_distributed as int - (if pre
            .has_received_payout@[i] {
            pre.contribution as int
        } else {
            0int
        })
        &&& post.dissolution_votes as int == pre.dissolution_votes as int - (if m
            .has_voted_dissolve {
            1int
        } else {
            0int
        })
        &&& post.proposal_votes as int == pre.proposal_votes as int - (if m.has_voted_proposal {
            1int
        } else {
            0int
        })
        &&& post.balance as int == pre.balance as int - m.total_contributed as int
        &&& post.group_reserve == (if treasury is None {
            pre.group_reserve.saturating_add(penalty)
        } else {
            pre.group_reserve
        })
        &&& post == (Circle {
            members: post.members,
            has_received_payout: post.has_received_payout,
            payout_queue: post.payout_queue,
            current_payout_index: post.current_payout_index,
            total_volume_distributed: post.total_volume_distributed,
            dissolution_votes: post.dissolution_votes,
            proposal_votes: post.proposal_votes,
            balance: post.balance,
            group_reserve: post.group_reserve,
            ..pre
        })
    }
}

impl Circle {
    /// Find an identity's position in the payout queue.
    fn find_in_queue(&self, address: u64) -> (r: Option<usize>)
        ensures
            match r {
                Some(i) => i < self.payout_queue@.len() && self.payout_queue@[i as int]
                    == address,
                None => !self.payout_queue@.contains(address),
            },
            r is Some <==> self.payout_queue@.contains(address),
    {
        let mut i: usize = 0;
        while i < self.payout_queue.len()
            invariant
                i <= self.payout_queue@.len(),
                forall|j: int| 0 <= j < i ==> self.payout_queue@[j] != address,
            decreases self.payout_queue@.len() - i,
        {
            if self.payout_queue[i] == address {
                return Some(i);
            }
            i += 1;
        }
        None
    }

    /// Replace `leaving` with `incoming` in place: the slot, its queue
    /// position and its whole ledger pass to `incoming`, who holds the
    /// slot in active standing. Fails with `MemberNotFound` if
    /// `leaving` is absent and `MemberAlreadyExists` if `incoming` is
    /// already a distinct member. The host authorizes both parties (or
    /// the admin, for `swap_by_admin`) before calling.
    pub fn swap(&mut self, leaving: u64, incoming: u64) -> (r: Result<(), Error>)
        requires
            old(self).wf(),
        ensures
            final(self).wf(),
            swap_transition(*old(self), *final(self), leaving, incoming, r),
    {
        let idx = match self.find_member(leaving) {
            Some(i) => i,
            None => { return Err(Error::MemberNotFound) },
        };
        proof {
            lemma_index_of_unique(self.member_ids(), idx as int);
        }
        if self.members[idx].status == MemberStatus::Ejected {
            return Err(Error::NotMember);
        }
        if incoming != leaving && self.find_member(incoming).is_some() {
            return Err(Error::MemberAlreadyExists);
        }
        let ghost pre = *self;
        proof {
            let replaced = (Member {
                address: incoming,
                status: MemberStatus::Active,
                ..pre.members@[idx as int]
            });
            lemma_count_where_update(pre.members@, voted_dissolve(), idx as int, replaced);
            lemma_count_where_update(pre.members@, voted_proposal(), idx as int, replaced);
        }
        let m = self.members[idx];
        self.members[idx] = Member { address: incoming, status: MemberStatus::Active, ..m };
        proof {
            assert(self.member_ids() =~= pre.member_ids().update(idx as int, incoming));
            lemma_no_dup_update(pre.member_ids(), idx as int, incoming);
            lemma_no_dup_update_contains(pre.member_ids(), idx as int, incoming);
        }
        let qpos = match self.find_in_queue(leaving) {
            Some(q) => q,
            None => {
                proof {
                    if pre.finalized() {
                        assert(pre.payout_queue@.contains(leaving));
                    }
                }
                return Ok(());
            },
        };
        proof {
            lemma_index_of_unique(pre.payout_queue@, qpos as int);
            lemma_no_dup_update(pre.payout_queue@, qpos as int, incoming);
            lemma_no_dup_update_contains(pre.payout_queue@, qpos as int, incoming);
        }
        self.payout_queue[qpos] = incoming;
        proof {
            assert forall|a: u64|
                self.payout_queue@.contains(a) <==> self.member_ids().contains(a) by {
                assert(pre.payout_queue@[qpos as int] == leaving);
                assert(pre.member_ids()[idx as int] == leaving);
                assert(self.payout_queue@ == pre.payout_queue@.update(qpos as int, incoming));
                assert(self.member_ids() == pre.member_ids().update(idx as int, incoming));
                assert(pre.payout_queue@.update(qpos as int, incoming).contains(a) <==> (a
                    == incoming || (pre.payout_queue@.contains(a) && a != leaving)));
                assert(pre.member_ids().update(idx as int, incoming).contains(a) <==> (a
                    == incoming || (pre.member_ids().contains(a) && a != leaving)));
                assert(pre.payout_queue@.contains(a) <==> pre.member_ids().contains(a));
            }
        }
        Ok(())
    }

    /// Like `swap`, but authorized by the circle's admin alone instead
    /// of by the two parties: an admin override for deployments where
    /// the leaving member cannot sign.
    pub fn swap_by_admin(&mut self, caller: u64, leaving: u64, incoming: u64) -> (r: Result<
        (),
        Error,
    >)
        requires
            old(self).wf(),
        ensures
            final(self).wf(),
            caller != old(self).admin ==> r == Err::<(), Error>(Error::Unauthorized)
                && *final(self) == *old(self),
            caller == old(self).admin ==> swap_transition(
                *old(self),
                *final(self),
                leaving,
                incoming,
                r,
            ),
    {
        if self.admin != caller {
            return Err(Error::Unauthorized);
        }
        self.swap(leaving, incoming)
    }

    /// Remove `member` outright. Admin-only; the slot leaves the
    /// roster, the payout flags and the payout queue, later slots move
    /// up one position, and every roster-derived tally sheds what the
    /// slot carried. The member is refunded their paid-in ledger less
    /// `penalty` (`PenaltyExceedsContribution` if the penalty is
    /// larger); the whole entry leaves the custodied pool
    /// (`InsufficientBalance` if it cannot cover it), the penalty going
    /// to the treasury when one is configured and to the group reserve
    /// otherwise. The host performs the transfers afterwards.
    #[verifier::rlimit(50)]
    pub fn kick(&mut self, caller: u64, member: u64, penalty: u128, treasury: Option<u64>) -> (r:
        Result<KickOutcome, Error>)
        requires
            old(self).wf(),
        ensures
            final(self).wf(),
            kick_transition(*old(self), *final(self), caller, member, penalty, treasury, r),
    {
        if self.admin != caller {
            return Err(Error::Unauthorized);
        }
        let idx = match self.find_member(member) {
            Some(i) => i,
            None => { return Err(Error::MemberNotFound) },
        };
        proof {
            lemma_index_of_unique(self.member_ids(), idx as int);
        }
        let m = self.members[idx];
        if penalty > m.total_contributed {
            return Err(Error::PenaltyExceedsContribution);
        }
        if m.total_contributed > self.balance {
            return Err(Error::InsufficientBalance);
        }
        let refund: u128 = m.total_contributed - penalty;
        let ghost pre = *self;

        // rebuild the roster without the kicked slot, moving later
        // slots up one position
        let kept = roster_without(&self.members, idx);

        // rebuild the payout flags without the kicked slot
        let kept_flags = copy_without(&self.has_received_payout, idx);

        // drop the kicked identity from the payout queue, if committed
        let kept_queue: Option<Vec<u64>> = match self.find_in_queue(member) {
            Some(qpos) => {
                proof {
                    lemma_index_of_unique(pre.payout_queue@, qpos as int);
                }
                Some(copy_without(&self.payout_queue, qpos))
            },
            None => None,
        };

        proof {
            lemma_count_where_bounds(pre.members@, voted_dissolve());
            lemma_count_where_bounds(pre.members@, voted_proposal());
            lemma_count_where_bounds(pre.has_received_payout@, flag_set());
            lemma_count_where_remove(pre.members@, voted_dissolve(), idx as int);
            lemma_count_where_remove(pre.members@, voted_proposal(), idx as int);
            lemma_count_where_remove(pre.has_received_payout@, flag_set(), idx as int);
            lemma_count_where_bounds(pre.members@.remove(idx as int), voted_dissolve());
            lemma_count_where_bounds(pre.members@.remove(idx as int), voted_proposal());
            lemma_count_where_bounds(pre.has_received_payout@.remove(idx as int), flag_set());
            lemma_count_where_pointwise(
                kept@,
                pre.members@.remove(idx as int),
                voted_dissolve(),
            );
            lemma_count_where_pointwise(
                kept@,
                pre.members@.remove(idx as int),
                voted_proposal(),
            );
        }
        let ghost removed_flag: int = if pre.has_received_payout@[idx as int] {
            1int
        } else {
            0int
        };
        proof {
            if pre.has_received_payout@[idx as int] {
                assert(pre.paid_count() >= 1);
                assert(pre.contribution as int * pre.paid_count() >= pre.contribution as int)
                    by (nonlinear_arith)
                    requires
                        pre.paid_count() >= 1,
                        pre.contribution >= 0,
                ;
            }
        }
        let kicked_voted_dissolve = m.has_voted_dissolve;
        let kicked_voted_proposal = m.has_voted_proposal;
        let flag_was_set = self.has_received_payout[idx];

        self.members = kept;
        self.has_received_payout = kept_flags;
        if flag_was_set {
            self.current_payout_index = self.current_payout_index - 1;
            self.total_volume_distributed = self.total_volume_distributed
                - self.contribution as u128;
        }
        if kicked_voted_dissolve {
            self.dissolution_votes = self.dissolution_votes - 1;
        }
        if kicked_voted_proposal {
            self.proposal_votes = self.proposal_votes - 1;
        }
        self.balance = self.balance - m.total_contributed;
        if treasury.is_none() {
            self.group_reserve = self.group_reserve.saturating_add(penalty);
        }
        if let Some(kq) = kept_queue {
            self.payout_queue = kq;
        }

        proof {
            assert(self.member_ids() =~= pre.member_ids().remove(idx as int));
            lemma_no_dup_remove(pre.member_ids(), idx as int);
            lemma_no_dup_remove_contains(pre.member_ids(), idx as int);
            assert(pre.contribution as int * (pre.paid_count() - removed_flag)
                == pre.contribution as int * pre.paid_count() - pre.contribution as int
                * removed_flag) by (nonlinear_arith);
            if pre.payout_queue@.contains(member) {
                let qi = pre.payout_queue@.index_of(member);
                lemma_no_dup_remove(pre.payout_queue@, qi);
                lemma_no_dup_remove_contains(pre.payout_queue@, qi);
                assert forall|a: u64|
                    self.payout_queue@.contains(a) <==> self.member_ids().contains(a) by {
                    assert(pre.payout_queue@[qi] == member);
                    assert(pre.member_ids()[idx as int] == member);
                    assert(self.payout_queue@ == pre.payout_queue@.remove(qi));
                    assert(self.member_ids() == pre.member_ids().remove(idx as int));
                    assert(pre.payout_queue@.remove(qi).contains(a) <==> (pre.payout_queue@
                        .contains(a) && a != member));
                    assert(pre.member_ids().remove(idx as int).contains(a) <==> (pre.member_ids()
                        .contains(a) && a != member));
                    assert(pre.payout_queue@.contains(a) <==> pre.member_ids().contains(a));
                }
            }
            if self.finalized() {
                assert(pre.finalized());
                assert(pre.payout_queue@.contains(member));
            }
        }
        Ok(KickOutcome { refund, penalty })
    }
}

/// Copy a vector, leaving out position `idx`.
fn copy_without<T: Copy>(v: &Vec<T>, idx: usize) -> (r: Vec<T>)
    requires
        idx < v@.len(),
    ensures
        r@ == v@.remove(idx as int),
{
    let mut r: Vec<T> = Vec::new();
    let mut j: usize = 0;
    while j < v.len()
        invariant
            j <= v@.len(),
            idx < v@.len(),
            r@.len() == if j <= idx {
                j as int
            } else {
                j - 1
            },
            forall|t: int|
                0 <= t < r@.len() ==> r@[t] == (if t < idx {
                    v@[t]
                } else {
                    v@[t + 1]
                }),
        decreases v@.len() - j,
    {
        if j != idx {
            r.push(v[j]);
        }
        j += 1;
    }
    proof {
        assert(r@ =~= v@.remove(idx as int));
    }
    r
}

/// Copy a roster, leaving out slot `idx` and moving the later slots up
/// one position.
fn roster_without(members: &Vec<Member>, idx: usize) -> (r: Vec<Member>)
    requires
        idx < members@.len(),
        members@.len() <= u32::MAX as int,
        forall|t: int|
            0 <= t < members@.len() ==> (#[trigger] members@[t]).index == t as u32,
    ensures
        r@.len() == members@.len() - 1,
        forall|t: int| 0 <= t < idx ==> r@[t] == members@[t],
        forall|t: int|
            idx <= t < r@.len() ==> r@[t] == (Member {
                index: (members@[t + 1].index - 1) as u32,
                ..members@[t + 1]
            }),
{
    let mut r: Vec<Member> = Vec::new();
    let mut j: usize = 0;
    while j < members.len()
        invariant
            j <= members@.len(),
            idx < members@.len(),
            members@.len() <= u32::MAX as int,
            forall|t: int|
                0 <= t < members@.len() ==> (#[trigger] members@[t]).index == t as u32,
            r@.len() == if j <= idx {
                j as int
            } else {
                j - 1
            },
            forall|t: int| 0 <= t < idx && t < r@.len() ==> r@[t] == members@[t],
            forall|t: int|
                idx <= t < r@.len() ==> r@[t] == (Member {
                    index: (members@[t + 1].index - 1) as u32,
                    ..members@[t + 1]
                }),
        decreases members@.len() - j,
    {
        if j != idx {
            let mm = members[j];
            if j > idx {
                proof {
                    assert(members@[j as int].index == j as u32);
                }
                r.push(Member { index: mm.index - 1, ..mm });
            } else {
                r.push(mm);
            }
        }
        j += 1;
    }
    r
}

/// Copy a vector of plain values.
pub fn copy_values<T: Copy>(v: &Vec<T>) -> (r: Vec<T>)
    ensures
        r@ == v@,
{
    let mut r: Vec<T> = Vec::new();
    let mut i: usize = 0;
    while i < v.len()
        invariant
            i <= v@.len(),
            r@.len() == i,
            forall|j: int| 0 <= j < i ==> r@[j] == v@[j],
        decreases v@.len() - i,
    {
        r.push(v[i]);
        i += 1;
    }
    proof {
        assert(r@ =~= v@);
    }
    r
}

} // verus!
