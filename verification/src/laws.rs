//! The engine's economic guarantees, stated and proved once over the
//! transition predicates, so that they hold of every call sequence the
//! host schedules.

use vstd::prelude::*;

use crate::circle::{
    deposit_transition, dues_covered, finalize_transition, flag_set, payout_transition,
    swap_transition, vote_dissolve_transition, withdraw_transition, Circle, PayoutOutcome,
};
use crate::errors::Error;
use crate::tally::{
    count_where, lemma_count_where_update, lemma_index_of_unique,
    lemma_no_dup_same_set_same_multiset, lemma_no_dup_update, lemma_no_dup_update_contains,
};

verus! {

/// Law: a well-formed circle's payout flags cover the roster exactly,
/// one flag per slot.
pub proof fn lemma_flags_cover_roster(c: Circle)
    requires
        c.wf(),
    ensures
        c.has_received_payout@.len() == c.members@.len(),
{
}

/// Law: a committed payout order is a permutation of the roster — the
/// queue and the member identities carry the same multiset, so sorting
/// either yields the same sequence.
pub proof fn lemma_queue_is_permutation(c: Circle)
    requires
        c.wf(),
        c.finalized(),
    ensures
        c.payout_queue@.to_multiset() == c.member_ids().to_multiset(),
{
    lemma_no_dup_same_set_same_multiset(c.payout_queue@, c.member_ids());
}

/// Law: finalization commits the payout order exactly once — a second
/// call by the admin is accepted and leaves the circle, its queue
/// included, unchanged.
pub proof fn lemma_finalize_idempotent(
    c1: Circle,
    c2: Circle,
    caller: u64,
    order: Option<Seq<u64>>,
    r: Result<(), Error>,
)
    requires
        c1.finalized(),
        caller == c1.admin,
        finalize_transition(c1, c2, caller, order, r),
    ensures
        r == Ok::<(), Error>(()),
        c2 == c1,
{
}

/// Law: at every moment the volume distributed this cycle equals the
/// contribution times the number of slots paid this cycle.
pub proof fn lemma_volume_tracks_payouts(c: Circle)
    requires
        c.wf(),
    ensures
        c.total_volume_distributed as int == c.contribution as int * count_where(
            c.has_received_payout@,
            flag_set(),
        ),
{
}

/// Law: each granted payout advances the payout index by exactly one,
/// adds exactly one contribution to the distributed volume, and
/// reports cycle completion precisely when it paid the roster's last
/// unpaid slot — so paying all N members walks the index from 0 to N
/// and the N-th call is the one that completes the cycle.
pub proof fn lemma_payout_progress(
    pre: Circle,
    post: Circle,
    caller: u64,
    recipient: u64,
    fee_bps: u32,
    treasury: Option<u64>,
    out: PayoutOutcome,
)
    requires
        pre.wf(),
        payout_transition(
            pre,
            post,
            caller,
            recipient,
            fee_bps,
            treasury,
            Ok::<PayoutOutcome, Error>(out),
        ),
    ensures
        post.current_payout_index as int == pre.current_payout_index as int + 1,
        post.total_volume_distributed as int == pre.total_volume_distributed as int
            + pre.contribution as int,
        out.cycle_completed <==> post.current_payout_index as int == post.member_count(),
{
}

/// Law: a payout to an already-paid slot is always refused with
/// `PayoutAlreadyReceived`, whatever the ordering of calls that led
/// here, and the circle is untouched.
pub proof fn lemma_no_double_payout(
    pre: Circle,
    post: Circle,
    caller: u64,
    recipient: u64,
    fee_bps: u32,
    treasury: Option<u64>,
    r: Result<PayoutOutcome, Error>,
)
    requires
        pre.wf(),
        caller == pre.admin,
        pre.is_active_member(recipient),
        pre.has_received_payout@[pre.member_index(recipient)],
        payout_transition(pre, post, caller, recipient, fee_bps, treasury, r),
    ensures
        r == Err::<PayoutOutcome, Error>(Error::PayoutAlreadyReceived),
        post == pre,
{
}

/// Law (insolvency guard): a payout is granted only when the custodied
/// balance covers the gross amount and debits exactly that amount, so
/// the balance never goes below zero; when the balance falls short and
/// every earlier check passes, the call is refused with
/// `InsufficientBalance` and nothing moves.
pub proof fn lemma_insolvency_guard(
    pre: Circle,
    post: Circle,
    caller: u64,
    recipient: u64,
    fee_bps: u32,
    treasury: Option<u64>,
    r: Result<PayoutOutcome, Error>,
)
    requires
        pre.wf(),
        payout_transition(pre, post, caller, recipient, fee_bps, treasury, r),
    ensures
        r is Ok ==> pre.balance >= pre.contribution && post.balance as int == pre.balance as int
            - pre.contribution as int,
        (caller == pre.admin && pre.is_active_member(recipient) && !pre.has_received_payout@[pre
            .member_index(recipient)] && pre.balance < pre.contribution) ==> r == Err::<
            PayoutOutcome,
            Error,
        >(Error::InsufficientBalance) && post == pre,
{
}

/// Law (dissolution quorum): an accepted dissolution vote dissolves
/// the circle exactly when the new tally is a strict majority of the
/// roster, `2 × votes > members` — with five members, at the third
/// vote and not the second.
pub proof fn lemma_dissolution_quorum(
    pre: Circle,
    post: Circle,
    caller: u64,
    now_dissolved: bool,
)
    requires
        pre.wf(),
        vote_dissolve_transition(pre, post, caller, Ok::<bool, Error>(now_dissolved)),
    ensures
        now_dissolved <==> 2 * (pre.dissolution_votes as int + 1) > pre.member_count(),
        post.is_dissolved == now_dissolved,
        post.dissolution_votes as int == pre.dissolution_votes as int + 1,
{
}

/// Law: dissolution is monotonic — once a circle is dissolved, a
/// further vote is refused and un-dissolves nothing.
pub proof fn lemma_dissolution_is_terminal(pre: Circle, post: Circle, caller: u64, r: Result<
    bool,
    Error,
>)
    requires
        pre.is_dissolved,
        vote_dissolve_transition(pre, post, caller, r),
    ensures
        r == Err::<bool, Error>(Error::AlreadyDissolved),
        post == pre,
        post.is_dissolved,
{
}

/// Law: an accepted dues deposit marks the depositor's slot covered and
/// raises the number of covered slots by exactly one when the slot was
/// not yet covered — so over a fresh cycle, each member's first deposit
/// walks the tally from 0 up to the roster's size, each call
/// contributing exactly one contribution to the pool — and leaves the
/// tally unchanged on a repeat deposit.
pub proof fn lemma_deposit_advances_dues_tally(
    pre: Circle,
    post: Circle,
    caller: u64,
    now: u64,
    total: u128,
)
    requires
        pre.wf(),
        deposit_transition(pre, post, caller, now, Ok::<u128, Error>(total)),
    ensures
        post.members@[pre.member_index(caller)].has_contributed,
        count_where(post.members@, dues_covered()) == count_where(pre.members@, dues_covered())
            + (if pre.members@[pre.member_index(caller)].has_contributed {
            0int
        } else {
            1int
        }),
{
    let i = pre.member_index(caller);
    lemma_count_where_update(pre.members@, dues_covered(), i, post.members@[i]);
}

/// Law: a granted pro-rata refund never exceeds what the member paid
/// in, less one contribution if the member was already paid this
/// cycle, and never exceeds the custodied pool, which it debits
/// exactly; the ledger entry is zeroed, so the refund can be granted
/// only once.
pub proof fn lemma_pro_rata_refund_bounded(
    pre: Circle,
    post: Circle,
    caller: u64,
    amount: u128,
)
    requires
        pre.wf(),
        withdraw_transition(pre, post, caller, Ok::<u128, Error>(amount)),
    ensures
        amount <= pre.members@[pre.member_index(caller)].total_contributed,
        amount <= pre.balance,
        post.balance as int == pre.balance as int - amount,
        post.members@[pre.member_index(caller)].total_contributed == 0,
{
}

/// Law: an accepted swap hands the slot over whole — the incoming
/// member stands at the leaving member's roster position and payout
/// queue position and inherits the slot's entire contribution ledger,
/// while the leaving identity (when distinct) is no longer a member.
pub proof fn lemma_swap_preserves_slot(
    pre: Circle,
    post: Circle,
    leaving: u64,
    incoming: u64,
)
    requires
        pre.wf(),
        swap_transition(pre, post, leaving, incoming, Ok::<(), Error>(())),
    ensures
        post.member_index(incoming) == pre.member_index(leaving),
        post.members@[pre.member_index(leaving)].total_contributed == pre.members@[pre
            .member_index(leaving)].total_contributed,
        incoming != leaving ==> !post.is_member(leaving),
        pre.payout_queue@.contains(leaving) ==> post.payout_queue@.index_of(incoming)
            == pre.payout_queue@.index_of(leaving),
{
    let i = pre.member_index(leaving);
    assert(pre.member_ids().contains(leaving));
    assert(0 <= i < pre.member_ids().len() && pre.member_ids()[i] == leaving);
    assert(post.member_ids() =~= pre.member_ids().update(i, incoming));
    lemma_no_dup_update(pre.member_ids(), i, incoming);
    lemma_no_dup_update_contains(pre.member_ids(), i, incoming);
    lemma_index_of_unique(post.member_ids(), i);
    if pre.payout_queue@.contains(leaving) {
        let qi = pre.payout_queue@.index_of(leaving);
        assert(0 <= qi < pre.payout_queue@.len() && pre.payout_queue@[qi] == leaving);
        lemma_no_dup_update(pre.payout_queue@, qi, incoming);
        lemma_index_of_unique(post.payout_queue@, qi);
    }
}

} // verus!
