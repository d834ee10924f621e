//! Membership management: swapping a member in place, kicking with a
//! penalty, and ejection.

use sorosusu::errors::Error;
use sorosusu::member::MemberStatus;
use sorosusu::protocol::SoroSusu;

const WEEK: u64 = 604800;

#[test]
fn swap_member_preserves_slot_and_ledger() {
    let mut s = SoroSusu::new();
    let admin = 1u64;
    let id = s.create_circle(admin, 100, false, 0, WEEK, 0);
    for m in [10u64, 11u64, 12u64] {
        s.join_circle(m, id).unwrap();
    }
    s.finalize_circle(admin, id, None).unwrap();
    // member 11 pays twice, building a ledger of 200
    s.deposit(11, id, 0).unwrap();
    s.deposit(11, id, 0).unwrap();
    assert_eq!(s.circles[0].members[1].total_contributed, 200);
    // 11 leaves, 99 takes the slot
    assert_eq!(s.swap_member(id, 11, 99), Ok(()));
    // the queue position is preserved
    assert_eq!(s.get_payout_queue(id).unwrap(), vec![10, 99, 12]);
    // the ledger travelled with the slot, and 11 retains nothing
    let slot = &s.circles[0].members[1];
    assert_eq!(slot.address, 99);
    assert_eq!(slot.total_contributed, 200);
    assert_eq!(slot.index, 1);
    assert!(!s.circles[0].members.iter().any(|m| m.address == 11));
}

#[test]
fn swap_member_errors() {
    let mut s = SoroSusu::new();
    let id = s.create_circle(1, 100, false, 0, WEEK, 0);
    s.join_circle(10, id).unwrap();
    s.join_circle(11, id).unwrap();
    assert_eq!(s.swap_member(id, 99, 50), Err(Error::MemberNotFound));
    assert_eq!(s.swap_member(id, 10, 11), Err(Error::MemberAlreadyExists));
    // an ejected slot cannot be handed to a fresh identity
    s.eject_member(1, id, 10).unwrap();
    assert_eq!(s.swap_member(id, 10, 50), Err(Error::NotMember));
}

#[test]
fn swap_member_by_admin_requires_admin() {
    let mut s = SoroSusu::new();
    let admin = 1u64;
    let id = s.create_circle(admin, 100, false, 0, WEEK, 0);
    s.join_circle(10, id).unwrap();
    assert_eq!(
        s.swap_member_by_admin(99, id, 10, 20),
        Err(Error::Unauthorized)
    );
    assert_eq!(s.swap_member_by_admin(admin, id, 10, 20), Ok(()));
    assert_eq!(s.circles[0].members[0].address, 20);
}

#[test]
fn kick_member_refunds_and_routes_penalty() {
    let mut s = SoroSusu::new();
    let admin = 1u64;
    let id = s.create_circle(admin, 100, false, 0, WEEK, 0);
    for m in [10u64, 11u64] {
        s.join_circle(m, id).unwrap();
        s.deposit(m, id, 0).unwrap();
    }
    assert_eq!(s.circles[0].balance, 200);
    // no treasury configured: the penalty goes to the group reserve
    let out = s.kick_member(admin, id, 10, 25).unwrap();
    assert_eq!(out.refund, 75);
    assert_eq!(out.penalty, 25);
    assert_eq!(s.circles[0].balance, 100);
    assert_eq!(s.circles[0].group_reserve, 25);
    // the roster closed the gap and reindexed
    assert_eq!(s.circles[0].members.len(), 1);
    assert_eq!(s.circles[0].members[0].address, 11);
    assert_eq!(s.circles[0].members[0].index, 0);
    assert_eq!(s.circles[0].has_received_payout.len(), 1);
}

#[test]
fn kick_member_with_treasury_sends_penalty_out() {
    let mut s = SoroSusu::new();
    s.initialize(500).unwrap();
    s.set_protocol_fee(500, 0, 600).unwrap();
    let admin = 1u64;
    let id = s.create_circle(admin, 100, false, 0, WEEK, 0);
    s.join_circle(10, id).unwrap();
    s.deposit(10, id, 0).unwrap();
    let out = s.kick_member(admin, id, 10, 40).unwrap();
    assert_eq!(out.refund, 60);
    assert_eq!(out.penalty, 40);
    // the whole ledger left custody; nothing stays in the reserve
    assert_eq!(s.circles[0].balance, 0);
    assert_eq!(s.circles[0].group_reserve, 0);
}

#[test]
fn kick_paid_member_rebalances_cycle_tallies() {
    let mut s = SoroSusu::new();
    let admin = 1u64;
    let id = s.create_circle(admin, 100, false, 0, WEEK, 0);
    for m in [10u64, 11u64] {
        s.join_circle(m, id).unwrap();
        s.deposit(m, id, 0).unwrap();
    }
    s.finalize_circle(admin, id, None).unwrap();
    s.process_payout(admin, id, 10).unwrap();
    let (_, index, volume) = s.get_cycle_info(id).unwrap();
    assert_eq!((index, volume), (1, 100));
    s.kick_member(admin, id, 10, 0).unwrap();
    // the kicked slot's payout left the cycle's tallies with it
    let (_, index, volume) = s.get_cycle_info(id).unwrap();
    assert_eq!((index, volume), (0, 0));
    // and the payout queue dropped the kicked identity
    assert_eq!(s.get_payout_queue(id).unwrap(), vec![11]);
}

#[test]
fn kick_member_errors() {
    let mut s = SoroSusu::new();
    let admin = 1u64;
    let id = s.create_circle(admin, 100, false, 0, WEEK, 0);
    s.join_circle(10, id).unwrap();
    s.deposit(10, id, 0).unwrap();
    assert_eq!(s.kick_member(99, id, 10, 0), Err(Error::Unauthorized));
    assert_eq!(s.kick_member(admin, id, 99, 0), Err(Error::MemberNotFound));
    assert_eq!(
        s.kick_member(admin, id, 10, 101),
        Err(Error::PenaltyExceedsContribution)
    );
}

#[test]
fn graceful_exit_via_swap() {
    let mut s = SoroSusu::new();
    let admin = 1u64;
    let id = s.create_circle(admin, 100, false, 0, WEEK, 0);
    for m in [10u64, 11u64, 12u64] {
        s.join_circle(m, id).unwrap();
    }
    for _ in 0..3 {
        s.deposit(12, id, 0).unwrap();
    }
    // member 12 (slot 2) announces a graceful exit
    assert_eq!(s.request_exit(12, id), Ok(()));
    assert_eq!(
        s.circles[0].members[2].status,
        MemberStatus::AwaitingReplacement
    );
    // while awaiting replacement the member can no longer act
    assert_eq!(s.deposit(12, id, 0), Err(Error::NotMember));
    assert_eq!(s.vote_dissolve(12, id), Err(Error::NotMember));
    assert_eq!(s.request_exit(12, id), Err(Error::NotMember));
    assert_eq!(s.request_exit(99, id), Err(Error::MemberNotFound));
    // a swap fills the vacancy: same slot, active standing, the
    // accumulated ledger carried over
    assert_eq!(s.swap_member(id, 12, 77), Ok(()));
    let slot = &s.circles[0].members[2];
    assert_eq!(slot.address, 77);
    assert_eq!(slot.index, 2);
    assert_eq!(slot.status, MemberStatus::Active);
    assert_eq!(slot.total_contributed, 300);
}

#[test]
fn test_nft_membership() {
    // ejection: the slot survives with its bookkeeping, the member's
    // standing does not; the returned index lets the host burn the
    // matching membership token
    let mut s = SoroSusu::new();
    let creator = 1u64;
    let id = s.create_circle(creator, 1000, false, 0, WEEK, 0);
    let user = 10u64;
    s.join_circle(user, id).unwrap();
    assert_eq!(s.circles[0].members[0].status, MemberStatus::Active);
    assert_eq!(s.eject_member(creator, id, user), Ok(0));
    assert_eq!(s.circles[0].members[0].status, MemberStatus::Ejected);
    // an ejected member cannot deposit
    assert_eq!(s.deposit(user, id, 0), Err(Error::NotMember));
    // nor be ejected twice
    assert_eq!(
        s.eject_member(creator, id, user),
        Err(Error::InvalidCircleState)
    );
    // only the creator ejects
    assert_eq!(s.eject_member(99, id, user), Err(Error::Unauthorized));
}
