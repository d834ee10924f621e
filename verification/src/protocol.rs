//! Protocol-level state: the registry that allocates circle ids, the
//! protocol fee configuration, and the per-user custody ledger with its
//! emergency-withdrawal safety valve.
//!
//! Every entry point re-validates its preconditions against current
//! state and either applies its whole effect or returns a typed error
//! and changes nothing.

use vstd::prelude::*;

use crate::circle::{
    copy_values, deposit_transition, eject_transition, finalize_transition, insurance_transition,
    join_transition, kick_transition, payout_transition, propose_transition,
    request_exit_transition, rollover_transition, swap_transition, vote_dissolve_transition,
    vote_penalty_transition, withdraw_transition, Circle, KickOutcome, PayoutOutcome,
};
use crate::errors::Error;
use crate::{EMERGENCY_WITHDRAWAL_DELAY, MAX_BASIS_POINTS};

verus! {

/// One entry of the protocol's custody ledger.
#[derive(Clone, Copy, Debug, PartialEq, Eq, Structural)]
pub struct UserBalance {
    /// Numeric principal of the user.
    pub user: u64,
    /// Funds the user has custodied with the protocol.
    pub amount: u128,
}

/// The protocol: circle registry, fee configuration and custody ledger.
#[derive(Clone, Debug)]
#[verifier::ext_equal]
pub struct SoroSusu {
    /// Protocol admin; `None` until `initialize`.
    pub admin: Option<u64>,
    /// Protocol fee on payouts, in basis points; at most the whole.
    pub fee_bps: u32,
    /// Recipient of the protocol fee; `None` until configured.
    pub treasury: Option<u64>,
    /// All circles ever created; the circle with id `i` sits at
    /// position `i - 1` and ids are allocated monotonically.
    pub circles: Vec<Circle>,
    /// Custody ledger of the emergency-withdrawal safety valve.
    pub balances: Vec<UserBalance>,
    /// When the admin last acted; gates emergency withdrawal.
    pub last_active_timestamp: u64,
}

impl SoroSusu {
    /// The users holding a custody-ledger entry.
    pub open spec fn users(self) -> Seq<u64> {
        self.balances@.map_values(|b: UserBalance| b.user)
    }

    /// A user's custodied funds (0 for a user without an entry).
    pub open spec fn balance_of(self, user: u64) -> int {
        if self.users().contains(user) {
            self.balances@[self.users().index_of(user)].amount as int
        } else {
            0
        }
    }

    /// Whether a circle with this id exists.
    pub open spec fn has_circle(self, circle_id: u64) -> bool {
        1 <= circle_id <= self.circles@.len()
    }

    /// The circle with this id. Meaningful only when `has_circle`.
    pub open spec fn circle_at(self, circle_id: u64) -> Circle {
        self.circles@[circle_id - 1]
    }

    /// Well-formedness: every entry point preserves this.
    pub open spec fn wf(self) -> bool {
        &&& self.fee_bps <= MAX_BASIS_POINTS
        &&& (forall|i: int|
            0 <= i < self.circles@.len() ==> (#[trigger] self.circles@[i]).wf()
                && self.circles@[i].id == i + 1)
        &&& self.users().no_duplicates()
    }

    /// The record the protocol starts with: uninitialized, no fee, no
    /// treasury, no circles, an empty ledger.
    pub open spec fn is_fresh(self) -> bool {
        &&& self.admin is None
        &&& self.fee_bps == 0
        &&& self.treasury is None
        &&& self.circles@ == Seq::<Circle>::empty()
        &&& self.balances@ == Seq::<UserBalance>::empty()
        &&& self.last_active_timestamp == 0
    }

    /// An empty, uninitialized protocol.
    pub fn new() -> (s: SoroSusu)
        ensures
            s.is_fresh(),
            s.wf(),
    {
        let s = SoroSusu {
            admin: None,
            fee_bps: 0,
            treasury: None,
            circles: Vec::new(),
            balances: Vec::new(),
            last_active_timestamp: 0,
        };
        proof {
            assert(s.users() =~= Seq::<u64>::empty());
        }
        s
    }
}

impl Default for SoroSusu {
    /// Same as `SoroSusu::new`.
    fn default() -> (s: SoroSusu)
        ensures
            s.is_fresh(),
            s.wf(),
    {
        SoroSusu::new()
    }
}

/// `post` differs from `pre` in the one circle `circle_id` at most.
pub open spec fn updates_one_circle(pre: SoroSusu, post: SoroSusu, circle_id: u64) -> bool {
    &&& post.circles@ == pre.circles@.update(circle_id - 1, post.circles@[circle_id - 1])
    &&& post == (SoroSusu { circles: post.circles, ..pre })
}

impl SoroSusu {
    /// Set the protocol admin, exactly once: a repeated call fails with
    /// `Unauthorized` and changes nothing.
    pub fn initialize(&mut self, admin: u64) -> (r: Result<(), Error>)
        requires
            old(self).wf(),
        ensures
            final(self).wf(),
            old(self).admin is Some ==> r == Err::<(), Error>(Error::Unauthorized) && *final(self)
                == *old(self),
            old(self).admin is None ==> r == Ok::<(), Error>(()) && *final(self) == (SoroSusu {
                admin: Some(admin),
                fee_bps: 0,
                ..*old(self)
            }),
    {
        if self.admin.is_some() {
            return Err(Error::Unauthorized);
        }
        self.admin = Some(admin);
        self.fee_bps = 0;
        Ok(())
    }

    /// Configure the protocol fee (at most the whole,
    /// `InvalidFeeConfig` otherwise) and the treasury that receives it.
    /// Only the protocol admin may call; fails with `Unauthorized` for
    /// anyone else or while uninitialized.
    pub fn set_protocol_fee(&mut self, caller: u64, fee_basis_points: u32, treasury: u64) -> (r:
        Result<(), Error>)
        requires
            old(self).wf(),
        ensures
            final(self).wf(),
            old(self).admin != Some(caller) ==> r == Err::<(), Error>(Error::Unauthorized)
                && *final(self) == *old(self),
            old(self).admin == Some(caller) && fee_basis_points > MAX_BASIS_POINTS ==> r == Err::<
                (),
                Error,
            >(Error::InvalidFeeConfig) && *final(self) == *old(self),
            old(self).admin == Some(caller) && fee_basis_points <= MAX_BASIS_POINTS ==> r == Ok::<
                (),
                Error,
            >(()) && *final(self) == (SoroSusu {
                fee_bps: fee_basis_points,
                treasury: Some(treasury),
                ..*old(self)
            }),
    {
        let authorized = match self.admin {
            Some(a) => a == caller,
            None => false,
        };
        if !authorized {
            return Err(Error::Unauthorized);
        }
        if fee_basis_points > MAX_BASIS_POINTS {
            return Err(Error::InvalidFeeConfig);
        }
        self.fee_bps = fee_basis_points;
        self.treasury = Some(treasury);
        Ok(())
    }

    /// Current protocol fee in basis points.
    pub fn fee_basis_points(&self) -> (r: u32)
        ensures
            r == self.fee_bps,
    {
        self.fee_bps
    }

    /// Recipient of the protocol fee, if configured.
    pub fn treasury_address(&self) -> (r: Option<u64>)
        ensures
            r == self.treasury,
    {
        self.treasury
    }

    /// Record that the admin acted at `now`, resetting the inactivity
    /// clock that gates emergency withdrawal. The host calls this
    /// alongside every admin-authorized operation.
    pub fn admin_action(&mut self, caller: u64, now: u64) -> (r: Result<(), Error>)
        requires
            old(self).wf(),
        ensures
            final(self).wf(),
            old(self).admin != Some(caller) ==> r == Err::<(), Error>(Error::Unauthorized)
                && *final(self) == *old(self),
            old(self).admin == Some(caller) ==> r == Ok::<(), Error>(()) && *final(self)
                == (SoroSusu { last_active_timestamp: now, ..*old(self) }),
    {
        let authorized = match self.admin {
            Some(a) => a == caller,
            None => false,
        };
        if !authorized {
            return Err(Error::Unauthorized);
        }
        self.last_active_timestamp = now;
        Ok(())
    }

    /// Find a user's custody-ledger entry.
    fn find_user(&self, user: u64) -> (r: Option<usize>)
        ensures
            match r {
                Some(i) => i < self.balances@.len() && self.balances@[i as int].user == user,
                None => !self.users().contains(user),
            },
            r is Some <==> self.users().contains(user),
    {
        let mut i: usize = 0;
        while i < self.balances.len()
            invariant
                i <= self.balances@.len(),
                forall|j: int| 0 <= j < i ==> self.balances@[j].user != user,
            decreases self.balances@.len() - i,
        {
            if self.balances[i].user == user {
                proof {
                    assert(self.users()[i as int] == user);
                }
                return Some(i);
            }
            i += 1;
        }
        None
    }

    /// Custody `amount` for `user`: the protocol-level safety valve a
    /// user can later reclaim from unilaterally. The host collects the
    /// amount before recording it.
    pub fn custody_deposit(&mut self, user: u64, amount: u128)
        requires
            old(self).wf(),
        ensures
            final(self).wf(),
            final(self).balance_of(user) == (old(self).balance_of(user) as u128).saturating_add(
                amount,
            ),
            forall|u: u64| u != user ==> final(self).balance_of(u) == old(self).balance_of(u),
            final(self).users().contains(user),
            forall|u: u64| old(self).users().contains(u) ==> final(self).users().contains(u),
            *final(self) == (SoroSusu { balances: final(self).balances, ..*old(self) }),
    {
        let ghost pre = *self;
        match self.find_user(user) {
            Some(i) => {
                proof {
                    assert(pre.users()[i as int] == user);
                    crate::tally::lemma_index_of_unique(pre.users(), i as int);
                }
                let entry = self.balances[i];
                self.balances[i] = UserBalance {
                    user,
                    amount: entry.amount.saturating_add(amount),
                };
                proof {
                    assert(self.users() =~= pre.users());
                    assert forall|u: u64| u != user implies self.balance_of(u) == pre.balance_of(
                        u,
                    ) by {
                        if pre.users().contains(u) {
                            let j = pre.users().index_of(u);
                            assert(0 <= j < pre.users().len() && pre.users()[j] == u);
                        }
                    }
                }
            },
            None => {
                self.balances.push(UserBalance { user, amount });
                proof {
                    assert(self.users() =~= pre.users().push(user));
                    assert(self.users()[self.users().len() - 1] == user);
                    assert forall|i: int, j: int|
                        0 <= i < self.users().len() && 0 <= j < self.users().len() && i
                            != j implies self.users()[i] != self.users()[j] by {
                        if i < self.users().len() - 1 && j < self.users().len() - 1 {
                            assert(pre.users()[i] == self.users()[i]);
                            assert(pre.users()[j] == self.users()[j]);
                        }
                    }
                    crate::tally::lemma_index_of_unique(self.users(), self.users().len() - 1);
                    assert forall|u: u64| pre.users().contains(u) implies self.users().contains(
                        u,
                    ) by {
                        let j = choose|j: int| 0 <= j < pre.users().len() && pre.users()[j] == u;
                        assert(self.users()[j] == u);
                    }
                    assert forall|u: u64| u != user implies self.balance_of(u) == pre.balance_of(
                        u,
                    ) by {
                        if pre.users().contains(u) {
                            let j = pre.users().index_of(u);
                            assert(0 <= j < pre.users().len() && pre.users()[j] == u);
                            assert(self.users()[j] == u);
                            crate::tally::lemma_index_of_unique(self.users(), j);
                        }
                    }
                }
            },
        }
    }

    /// Reclaim every custodied token of `user`, permitted only when the
    /// admin has been inactive for longer than the emergency delay:
    /// `now` must lie strictly beyond `last_active_timestamp` plus the
    /// delay, else `EmergencyWithdrawalNotAvailable`. Zeroes the entry
    /// (a user without funds reclaims 0); the host transfers the
    /// returned amount afterwards.
    pub fn emergency_withdraw(&mut self, user: u64, now: u64) -> (r: Result<u128, Error>)
        requires
            old(self).wf(),
        ensures
            final(self).wf(),
            now <= old(self).last_active_timestamp.saturating_add(EMERGENCY_WITHDRAWAL_DELAY)
                ==> r == Err::<u128, Error>(Error::EmergencyWithdrawalNotAvailable) && *final(self)
                == *old(self),
            now > old(self).last_active_timestamp.saturating_add(EMERGENCY_WITHDRAWAL_DELAY) ==> {
                &&& r == Ok::<u128, Error>(old(self).balance_of(user) as u128)
                &&& final(self).balance_of(user) == 0
                &&& (forall|u: u64|
                    u != user ==> final(self).balance_of(u) == old(self).balance_of(u))
                &&& *final(self) == (SoroSusu { balances: final(self).balances, ..*old(self) })
            },
    {
        if now <= self.last_active_timestamp.saturating_add(EMERGENCY_WITHDRAWAL_DELAY) {
            return Err(Error::EmergencyWithdrawalNotAvailable);
        }
        let ghost pre = *self;
        match self.find_user(user) {
            Some(i) => {
                proof {
                    assert(pre.users()[i as int] == user);
                    crate::tally::lemma_index_of_unique(pre.users(), i as int);
                }
                let entry = self.balances[i];
                self.balances[i] = UserBalance { user, amount: 0 };
                proof {
                    assert(self.users() =~= pre.users());
                    assert forall|u: u64| u != user implies self.balance_of(u) == pre.balance_of(
                        u,
                    ) by {
                        if pre.users().contains(u) {
                            let j = pre.users().index_of(u);
                            assert(0 <= j < pre.users().len() && pre.users()[j] == u);
                        }
                    }
                }
                Ok(entry.amount)
            },
            None => { Ok(0) },
        }
    }
}

impl SoroSusu {
    /// A circle update at `circle_id` left the protocol well-formed.
    proof fn lemma_one_circle_updated(pre: SoroSusu, post: SoroSusu, circle_id: u64)
        requires
            pre.wf(),
            pre.has_circle(circle_id),
            post.circles@ == pre.circles@.update(circle_id - 1, post.circles@[circle_id - 1]),
            post.circles@[circle_id - 1].wf(),
            post.circles@[circle_id - 1].id == pre.circles@[circle_id - 1].id,
            post == (SoroSusu { circles: post.circles, ..pre }),
        ensures
            post.wf(),
            updates_one_circle(pre, post, circle_id),
    {
        assert(post.users() =~= pre.users());
        assert forall|i: int|
            0 <= i < post.circles@.len() implies (#[trigger] post.circles@[i]).wf()
            && post.circles@[i].id == i + 1 by {
            if i != circle_id - 1 {
                assert(post.circles@[i] == pre.circles@[i]);
            }
        }
    }

    /// Allocate the next circle id and register a fresh circle with
    /// `creator` as its admin. Ids are allocated monotonically starting
    /// at 1. The contribution must be positive and the insurance rate
    /// at most the whole; the host checks both and the roster starts
    /// empty.
    pub fn create_circle(
        &mut self,
        creator: u64,
        contribution: u64,
        is_random_queue: bool,
        insurance_fee_bps: u32,
        cycle_duration: u64,
        now: u64,
    ) -> (r: u64)
        requires
            old(self).wf(),
            contribution > 0,
            insurance_fee_bps <= MAX_BASIS_POINTS,
            old(self).circles@.len() < u64::MAX,
        ensures
            final(self).wf(),
            r == old(self).circles@.len() + 1,
            final(self).has_circle(r),
            final(self).circles@.len() == old(self).circles@.len() + 1,
            final(self).circle_at(r).is_fresh(
                r,
                creator,
                contribution,
                is_random_queue,
                insurance_fee_bps,
                cycle_duration,
                now,
            ),
            final(self).circles@ == old(self).circles@.push(final(self).circle_at(r)),
            *final(self) == (SoroSusu { circles: final(self).circles, ..*old(self) }),
    {
        let id = self.circles.len() as u64 + 1;
        let circle = Circle::new(
            id,
            creator,
            contribution,
            is_random_queue,
            insurance_fee_bps,
            cycle_duration,
            now,
        );
        self.circles.push(circle);
        proof {
            assert(self.users() =~= old(self).users());
        }
        id
    }

    /// Admit `caller` to circle `circle_id`; see `Circle::join`.
    pub fn join_circle(&mut self, caller: u64, circle_id: u64) -> (r: Result<(), Error>)
        requires
            old(self).wf(),
        ensures
            final(self).wf(),
            !old(self).has_circle(circle_id) ==> r == Err::<(), Error>(Error::CircleNotFound)
                && *final(self) == *old(self),
            old(self).has_circle(circle_id) ==> join_transition(
                old(self).circle_at(circle_id),
                final(self).circle_at(circle_id),
                caller,
                r,
            ) && updates_one_circle(*old(self), *final(self), circle_id),
    {
        if circle_id == 0 || circle_id > self.circles.len() as u64 {
            return Err(Error::CircleNotFound);
        }
        let idx = (circle_id - 1) as usize;
        let circle = &mut self.circles[idx];
        let r = circle.join(caller);
        proof {
            Self::lemma_one_circle_updated(*old(self), *self, circle_id);
        }
        r
    }

    /// Record `caller`'s dues deposit in circle `circle_id` at time
    /// `now` and return the amount the host must collect; see
    /// `Circle::deposit`.
    pub fn deposit(&mut self, caller: u64, circle_id: u64, now: u64) -> (r: Result<u128, Error>)
        requires
            old(self).wf(),
        ensures
            final(self).wf(),
            !old(self).has_circle(circle_id) ==> r == Err::<u128, Error>(Error::CircleNotFound)
                && *final(self) == *old(self),
            old(self).has_circle(circle_id) ==> deposit_transition(
                old(self).circle_at(circle_id),
                final(self).circle_at(circle_id),
                caller,
                now,
                r,
            ) && updates_one_circle(*old(self), *final(self), circle_id),
    {
        if circle_id == 0 || circle_id > self.circles.len() as u64 {
            return Err(Error::CircleNotFound);
        }
        let idx = (circle_id - 1) as usize;
        let circle = &mut self.circles[idx];
        let r = circle.deposit(caller, now);
        proof {
            Self::lemma_one_circle_updated(*old(self), *self, circle_id);
        }
        r
    }

    /// Commit circle `circle_id`'s payout order; see `Circle::finalize`.
    pub fn finalize_circle(&mut self, caller: u64, circle_id: u64, order: Option<&Vec<u64>>) -> (r:
        Result<(), Error>)
        requires
            old(self).wf(),
        ensures
            final(self).wf(),
            !old(self).has_circle(circle_id) ==> r == Err::<(), Error>(Error::CircleNotFound)
                && *final(self) == *old(self),
            old(self).has_circle(circle_id) ==> finalize_transition(
                old(self).circle_at(circle_id),
                final(self).circle_at(circle_id),
                caller,
                match order {
                    Option::Some(v) => Option::Some(v@),
                    Option::None => Option::None,
                },
                r,
            ) && updates_one_circle(*old(self), *final(self), circle_id),
    {
        if circle_id == 0 || circle_id > self.circles.len() as u64 {
            return Err(Error::CircleNotFound);
        }
        let idx = (circle_id - 1) as usize;
        let circle = &mut self.circles[idx];
        let r = circle.finalize(caller, order);
        proof {
            Self::lemma_one_circle_updated(*old(self), *self, circle_id);
        }
        r
    }

    /// Pay circle `circle_id`'s gross amount to `recipient` under the
    /// protocol's current fee configuration; see
    /// `Circle::process_payout`.
    pub fn process_payout(&mut self, caller: u64, circle_id: u64, recipient: u64) -> (r: Result<
        PayoutOutcome,
        Error,
    >)
        requires
            old(self).wf(),
        ensures
            final(self).wf(),
            !old(self).has_circle(circle_id) ==> r == Err::<PayoutOutcome, Error>(
                Error::CircleNotFound,
            ) && *final(self) == *old(self),
            old(self).has_circle(circle_id) ==> payout_transition(
                old(self).circle_at(circle_id),
                final(self).circle_at(circle_id),
                caller,
                recipient,
                old(self).fee_bps,
                old(self).treasury,
                r,
            ) && updates_one_circle(*old(self), *final(self), circle_id),
    {
        if circle_id == 0 || circle_id > self.circles.len() as u64 {
            return Err(Error::CircleNotFound);
        }
        let idx = (circle_id - 1) as usize;
        let fee_bps = self.fee_bps;
        let treasury = self.treasury;
        let circle = &mut self.circles[idx];
        let r = circle.process_payout(caller, recipient, fee_bps, treasury);
        proof {
            Self::lemma_one_circle_updated(*old(self), *self, circle_id);
        }
        r
    }

    /// Close circle `circle_id`'s completed cycle and open the next
    /// one; see `Circle::rollover`.
    pub fn rollover_group(&mut self, caller: u64, circle_id: u64) -> (r: Result<u32, Error>)
        requires
            old(self).wf(),
        ensures
            final(self).wf(),
            !old(self).has_circle(circle_id) ==> r == Err::<u32, Error>(Error::CircleNotFound)
                && *final(self) == *old(self),
            old(self).has_circle(circle_id) ==> rollover_transition(
                old(self).circle_at(circle_id),
                final(self).circle_at(circle_id),
                caller,
                r,
            ) && updates_one_circle(*old(self), *final(self), circle_id),
    {
        if circle_id == 0 || circle_id > self.circles.len() as u64 {
            return Err(Error::CircleNotFound);
        }
        let idx = (circle_id - 1) as usize;
        let circle = &mut self.circles[idx];
        let r = circle.rollover(caller);
        proof {
            Self::lemma_one_circle_updated(*old(self), *self, circle_id);
        }
        r
    }

    /// Remove `member` from circle `circle_id` with a penalty withheld
    /// from their refund, the penalty going to the protocol treasury
    /// when one is configured; see `Circle::kick`.
    pub fn kick_member(&mut self, caller: u64, circle_id: u64, member: u64, penalty: u128) -> (r:
        Result<KickOutcome, Error>)
        requires
            old(self).wf(),
        ensures
            final(self).wf(),
            !old(self).has_circle(circle_id) ==> r == Err::<KickOutcome, Error>(
                Error::CircleNotFound,
            ) && *final(self) == *old(self),
            old(self).has_circle(circle_id) ==> kick_transition(
                old(self).circle_at(circle_id),
                final(self).circle_at(circle_id),
                caller,
                member,
                penalty,
                old(self).treasury,
                r,
            ) && updates_one_circle(*old(self), *final(self), circle_id),
    {
        if circle_id == 0 || circle_id > self.circles.len() as u64 {
            return Err(Error::CircleNotFound);
        }
        let idx = (circle_id - 1) as usize;
        let treasury = self.treasury;
        let circle = &mut self.circles[idx];
        let r = circle.kick(caller, member, penalty, treasury);
        proof {
            Self::lemma_one_circle_updated(*old(self), *self, circle_id);
        }
        r
    }

    /// Replace `leaving` with `incoming` in circle `circle_id`, both
    /// parties authorized by the host; see `Circle::swap`.
    pub fn swap_member(&mut self, circle_id: u64, leaving: u64, incoming: u64) -> (r: Result<
        (),
        Error,
    >)
        requires
            old(self).wf(),
        ensures
            final(self).wf(),
            !old(self).has_circle(circle_id) ==> r == Err::<(), Error>(Error::CircleNotFound)
                && *final(self) == *old(self),
            old(self).has_circle(circle_id) ==> swap_transition(
                old(self).circle_at(circle_id),
                final(self).circle_at(circle_id),
                leaving,
                incoming,
                r,
            ) && updates_one_circle(*old(self), *final(self), circle_id),
    {
        if circle_id == 0 || circle_id > self.circles.len() as u64 {
            return Err(Error::CircleNotFound);
        }
        let idx = (circle_id - 1) as usize;
        let circle = &mut self.circles[idx];
        let r = circle.swap(leaving, incoming);
        proof {
            Self::lemma_one_circle_updated(*old(self), *self, circle_id);
        }
        r
    }

    /// Replace `leaving` with `incoming` in circle `circle_id` on the
    /// circle admin's authority alone; see `Circle::swap_by_admin`.
    pub fn swap_member_by_admin(
        &mut self,
        caller: u64,
        circle_id: u64,
        leaving: u64,
        incoming: u64,
    ) -> (r: Result<(), Error>)
        requires
            old(self).wf(),
        ensures
            final(self).wf(),
            !old(self).has_circle(circle_id) ==> r == Err::<(), Error>(Error::CircleNotFound)
                && *final(self) == *old(self),
            old(self).has_circle(circle_id) && caller != old(self).circle_at(circle_id).admin
                ==> r == Err::<(), Error>(Error::Unauthorized) && final(self).circle_at(circle_id)
                == old(self).circle_at(circle_id) && updates_one_circle(
                *old(self),
                *final(self),
                circle_id,
            ),
            old(self).has_circle(circle_id) && caller == old(self).circle_at(circle_id).admin
                ==> swap_transition(
                old(self).circle_at(circle_id),
                final(self).circle_at(circle_id),
                leaving,
                incoming,
                r,
            ) && updates_one_circle(*old(self), *final(self), circle_id),
    {
        if circle_id == 0 || circle_id > self.circles.len() as u64 {
            return Err(Error::CircleNotFound);
        }
        let idx = (circle_id - 1) as usize;
        let circle = &mut self.circles[idx];
        let r = circle.swap_by_admin(caller, leaving, incoming);
        proof {
            Self::lemma_one_circle_updated(*old(self), *self, circle_id);
        }
        r
    }

    /// Announce `caller`'s graceful exit from circle `circle_id`; see
    /// `Circle::request_exit`.
    pub fn request_exit(&mut self, caller: u64, circle_id: u64) -> (r: Result<(), Error>)
        requires
            old(self).wf(),
        ensures
            final(self).wf(),
            !old(self).has_circle(circle_id) ==> r == Err::<(), Error>(Error::CircleNotFound)
                && *final(self) == *old(self),
            old(self).has_circle(circle_id) ==> request_exit_transition(
                old(self).circle_at(circle_id),
                final(self).circle_at(circle_id),
                caller,
                r,
            ) && updates_one_circle(*old(self), *final(self), circle_id),
    {
        if circle_id == 0 || circle_id > self.circles.len() as u64 {
            return Err(Error::CircleNotFound);
        }
        let idx = (circle_id - 1) as usize;
        let circle = &mut self.circles[idx];
        let r = circle.request_exit(caller);
        proof {
            Self::lemma_one_circle_updated(*old(self), *self, circle_id);
        }
        r
    }

    /// Mark `member` of circle `circle_id` ejected; see `Circle::eject`.
    pub fn eject_member(&mut self, caller: u64, circle_id: u64, member: u64) -> (r: Result<
        u32,
        Error,
    >)
        requires
            old(self).wf(),
        ensures
            final(self).wf(),
            !old(self).has_circle(circle_id) ==> r == Err::<u32, Error>(Error::CircleNotFound)
                && *final(self) == *old(self),
            old(self).has_circle(circle_id) ==> eject_transition(
                old(self).circle_at(circle_id),
                final(self).circle_at(circle_id),
                caller,
                member,
                r,
            ) && updates_one_circle(*old(self), *final(self), circle_id),
    {
        if circle_id == 0 || circle_id > self.circles.len() as u64 {
            return Err(Error::CircleNotFound);
        }
        let idx = (circle_id - 1) as usize;
        let circle = &mut self.circles[idx];
        let r = circle.eject(caller, member);
        proof {
            Self::lemma_one_circle_updated(*old(self), *self, circle_id);
        }
        r
    }

    /// Cast `caller`'s dissolution vote in circle `circle_id`; see
    /// `Circle::vote_dissolve`.
    pub fn vote_dissolve(&mut self, caller: u64, circle_id: u64) -> (r: Result<bool, Error>)
        requires
            old(self).wf(),
        ensures
            final(self).wf(),
            !old(self).has_circle(circle_id) ==> r == Err::<bool, Error>(Error::CircleNotFound)
                && *final(self) == *old(self),
            old(self).has_circle(circle_id) ==> vote_dissolve_transition(
                old(self).circle_at(circle_id),
                final(self).circle_at(circle_id),
                caller,
                r,
            ) && updates_one_circle(*old(self), *final(self), circle_id),
    {
        if circle_id == 0 || circle_id > self.circles.len() as u64 {
            return Err(Error::CircleNotFound);
        }
        let idx = (circle_id - 1) as usize;
        let circle = &mut self.circles[idx];
        let r = circle.vote_dissolve(caller);
        proof {
            Self::lemma_one_circle_updated(*old(self), *self, circle_id);
        }
        r
    }

    /// Open a late-fee proposal in circle `circle_id`; see
    /// `Circle::propose_penalty_change`.
    pub fn propose_penalty_change(&mut self, caller: u64, circle_id: u64, new_bps: u32) -> (r:
        Result<bool, Error>)
        requires
            old(self).wf(),
        ensures
            final(self).wf(),
            !old(self).has_circle(circle_id) ==> r == Err::<bool, Error>(Error::CircleNotFound)
                && *final(self) == *old(self),
            old(self).has_circle(circle_id) ==> propose_transition(
                old(self).circle_at(circle_id),
                final(self).circle_at(circle_id),
                caller,
                new_bps,
                r,
            ) && updates_one_circle(*old(self), *final(self), circle_id),
    {
        if circle_id == 0 || circle_id > self.circles.len() as u64 {
            return Err(Error::CircleNotFound);
        }
        let idx = (circle_id - 1) as usize;
        let circle = &mut self.circles[idx];
        let r = circle.propose_penalty_change(caller, new_bps);
        proof {
            Self::lemma_one_circle_updated(*old(self), *self, circle_id);
        }
        r
    }

    /// Back the open late-fee proposal in circle `circle_id`; see
    /// `Circle::vote_penalty_change`.
    pub fn vote_penalty_change(&mut self, caller: u64, circle_id: u64) -> (r: Result<bool, Error>)
        requires
            old(self).wf(),
        ensures
            final(self).wf(),
            !old(self).has_circle(circle_id) ==> r == Err::<bool, Error>(Error::CircleNotFound)
                && *final(self) == *old(self),
            old(self).has_circle(circle_id) ==> vote_penalty_transition(
                old(self).circle_at(circle_id),
                final(self).circle_at(circle_id),
                caller,
                r,
            ) && updates_one_circle(*old(self), *final(self), circle_id),
    {
        if circle_id == 0 || circle_id > self.circles.len() as u64 {
            return Err(Error::CircleNotFound);
        }
        let idx = (circle_id - 1) as usize;
        let circle = &mut self.circles[idx];
        let r = circle.vote_penalty_change(caller);
        proof {
            Self::lemma_one_circle_updated(*old(self), *self, circle_id);
        }
        r
    }

    /// Cover a defaulting member's dues in circle `circle_id` from the
    /// insurance fund; see `Circle::trigger_insurance_coverage`.
    pub fn trigger_insurance_coverage(&mut self, caller: u64, circle_id: u64, member: u64) -> (r:
        Result<(), Error>)
        requires
            old(self).wf(),
        ensures
            final(self).wf(),
            !old(self).has_circle(circle_id) ==> r == Err::<(), Error>(Error::CircleNotFound)
                && *final(self) == *old(self),
            old(self).has_circle(circle_id) ==> insurance_transition(
                old(self).circle_at(circle_id),
                final(self).circle_at(circle_id),
                caller,
                member,
                r,
            ) && updates_one_circle(*old(self), *final(self), circle_id),
    {
        if circle_id == 0 || circle_id > self.circles.len() as u64 {
            return Err(Error::CircleNotFound);
        }
        let idx = (circle_id - 1) as usize;
        let circle = &mut self.circles[idx];
        let r = circle.trigger_insurance_coverage(caller, member);
        proof {
            Self::lemma_one_circle_updated(*old(self), *self, circle_id);
        }
        r
    }

    /// Reclaim `caller`'s net contributions from dissolved circle
    /// `circle_id`; see `Circle::withdraw_pro_rata`.
    pub fn withdraw_pro_rata(&mut self, caller: u64, circle_id: u64) -> (r: Result<u128, Error>)
        requires
            old(self).wf(),
        ensures
            final(self).wf(),
            !old(self).has_circle(circle_id) ==> r == Err::<u128, Error>(Error::CircleNotFound)
                && *final(self) == *old(self),
            old(self).has_circle(circle_id) ==> withdraw_transition(
                old(self).circle_at(circle_id),
                final(self).circle_at(circle_id),
                caller,
                r,
            ) && updates_one_circle(*old(self), *final(self), circle_id),
    {
        if circle_id == 0 || circle_id > self.circles.len() as u64 {
            return Err(Error::CircleNotFound);
        }
        let idx = (circle_id - 1) as usize;
        let circle = &mut self.circles[idx];
        let r = circle.withdraw_pro_rata(caller);
        proof {
            Self::lemma_one_circle_updated(*old(self), *self, circle_id);
        }
        r
    }

    /// The committed payout order of circle `circle_id` (empty before
    /// finalization).
    pub fn get_payout_queue(&self, circle_id: u64) -> (r: Result<Vec<u64>, Error>)
        ensures
            !self.has_circle(circle_id) ==> r is Err && r->Err_0 == Error::CircleNotFound,
            self.has_circle(circle_id) ==> r is Ok && r->Ok_0@ == self.circle_at(
                circle_id,
            ).payout_queue@,
    {
        if circle_id == 0 || circle_id > self.circles.len() as u64 {
            return Err(Error::CircleNotFound);
        }
        let idx = (circle_id - 1) as usize;
        Ok(copy_values(&self.circles[idx].payout_queue))
    }

    /// Circle `circle_id`'s cycle number, payouts made this cycle, and
    /// volume distributed this cycle.
    pub fn get_cycle_info(&self, circle_id: u64) -> (r: Result<(u32, u32, u128), Error>)
        ensures
            !self.has_circle(circle_id) ==> r == Err::<(u32, u32, u128), Error>(
                Error::CircleNotFound,
            ),
            self.has_circle(circle_id) ==> r == Ok::<(u32, u32, u128), Error>(
                (
                    self.circle_at(circle_id).cycle_number,
                    self.circle_at(circle_id).current_payout_index,
                    self.circle_at(circle_id).total_volume_distributed,
                ),
            ),
    {
        if circle_id == 0 || circle_id > self.circles.len() as u64 {
            return Err(Error::CircleNotFound);
        }
        let idx = (circle_id - 1) as usize;
        let circle = &self.circles[idx];
        Ok((circle.cycle_number, circle.current_payout_index, circle.total_volume_distributed))
    }

    /// Circle `circle_id`'s per-slot payout flags for the current
    /// cycle.
    pub fn get_payout_status(&self, circle_id: u64) -> (r: Result<Vec<bool>, Error>)
        ensures
            !self.has_circle(circle_id) ==> r is Err && r->Err_0 == Error::CircleNotFound,
            self.has_circle(circle_id) ==> r is Ok && r->Ok_0@ == self.circle_at(
                circle_id,
            ).has_received_payout@,
    {
        if circle_id == 0 || circle_id > self.circles.len() as u64 {
            return Err(Error::CircleNotFound);
        }
        let idx = (circle_id - 1) as usize;
        Ok(copy_values(&self.circles[idx].has_received_payout))
    }
}

} // verus!
