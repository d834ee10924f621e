//! Governance: dissolution votes with their strict-majority quorum,
//! late-fee proposals, and insurance coverage.

use sorosusu::errors::Error;
use sorosusu::member::MemberStatus;
use sorosusu::protocol::SoroSusu;

const WEEK: u64 = 604800;

#[test]
fn dissolution_quorum_with_five_members() {
    let mut s = SoroSusu::new();
    let id = s.create_circle(1, 100, false, 0, WEEK, 0);
    for m in 10..15u64 {
        s.join_circle(m, id).unwrap();
    }
    // 2 votes of 5: 2*2 = 4 <= 5, no dissolution
    assert_eq!(s.vote_dissolve(10, id), Ok(false));
    assert_eq!(s.vote_dissolve(11, id), Ok(false));
    assert!(!s.circles[0].is_dissolved);
    // the third vote reaches the strict majority: 3*2 = 6 > 5
    assert_eq!(s.vote_dissolve(12, id), Ok(true));
    assert!(s.circles[0].is_dissolved);
}

#[test]
fn dissolution_vote_errors() {
    let mut s = SoroSusu::new();
    let id = s.create_circle(1, 100, false, 0, WEEK, 0);
    for m in 10..15u64 {
        s.join_circle(m, id).unwrap();
    }
    assert_eq!(s.vote_dissolve(99, id), Err(Error::NotMember));
    assert_eq!(s.vote_dissolve(10, id), Ok(false));
    assert_eq!(s.vote_dissolve(10, id), Err(Error::AlreadyVoted));
    s.vote_dissolve(11, id).unwrap();
    s.vote_dissolve(12, id).unwrap();
    // the circle is dissolved and stays dissolved
    assert_eq!(s.vote_dissolve(13, id), Err(Error::AlreadyDissolved));
    assert!(s.circles[0].is_dissolved);
    // a dissolved circle admits no one
    assert_eq!(s.join_circle(20, id), Err(Error::AlreadyDissolved));
}

#[test]
fn test_governance_penalty_change() {
    let mut s = SoroSusu::new();
    let creator = 1u64;
    let id = s.create_circle(creator, 1000, false, 0, WEEK, 0);
    let user1 = 10u64;
    let user2 = 11u64;
    let user3 = 12u64;
    s.join_circle(user1, id).unwrap();
    s.join_circle(user2, id).unwrap();
    s.join_circle(user3, id).unwrap();
    // the default late-fee rate is 100 bps (1%)
    assert_eq!(s.circles[0].late_fee_bps, 100);
    // user1 proposes 5% (500 bps): 1 vote of 3 is no majority yet
    assert_eq!(s.propose_penalty_change(user1, id, 500), Ok(false));
    // user2's vote makes 2 of 3: adopted
    assert_eq!(s.vote_penalty_change(user2, id), Ok(true));
    assert_eq!(s.circles[0].late_fee_bps, 500);
    assert_eq!(s.circles[0].proposed_late_fee_bps, 0);
}

#[test]
fn penalty_change_errors() {
    let mut s = SoroSusu::new();
    let id = s.create_circle(1, 1000, false, 0, WEEK, 0);
    s.join_circle(10, id).unwrap();
    s.join_circle(11, id).unwrap();
    assert_eq!(s.propose_penalty_change(99, id, 500), Err(Error::MemberNotFound));
    assert_eq!(
        s.propose_penalty_change(10, id, 10001),
        Err(Error::InvalidFeeConfig)
    );
    // voting with no proposal open
    assert_eq!(s.vote_penalty_change(10, id), Err(Error::InvalidCircleState));
}

#[test]
fn single_member_proposal_adopts_immediately() {
    let mut s = SoroSusu::new();
    let id = s.create_circle(1, 1000, false, 0, WEEK, 0);
    s.join_circle(10, id).unwrap();
    // 1 vote of 1 is already a strict majority
    assert_eq!(s.propose_penalty_change(10, id, 250), Ok(true));
    assert_eq!(s.circles[0].late_fee_bps, 250);
    assert_eq!(s.circles[0].proposed_late_fee_bps, 0);
}

#[test]
fn test_insurance_fund() {
    let mut s = SoroSusu::new();
    let creator = 1u64;
    // 10% insurance fee (1000 bps)
    let id = s.create_circle(creator, 1000, false, 1000, WEEK, 0);
    let user1 = 10u64;
    let user2 = 11u64;
    s.join_circle(user1, id).unwrap();
    s.join_circle(user2, id).unwrap();
    // user1 deposits: 1000 dues + 100 insurance fee
    assert_eq!(s.deposit(user1, id, 0), Ok(1100));
    assert_eq!(s.circles[0].insurance_balance, 100);
    // user1 keeps depositing until the fund holds one contribution
    for _ in 0..9 {
        s.deposit(user1, id, 0).unwrap();
    }
    assert_eq!(s.circles[0].insurance_balance, 1000);
    // user2 defaults; the creator triggers coverage
    assert_eq!(s.trigger_insurance_coverage(creator, id, user2), Ok(()));
    assert!(s.circles[0].is_insurance_used);
    assert_eq!(s.circles[0].insurance_balance, 0);
    assert!(s.circles[0].members[1].has_contributed);
}

#[test]
fn insurance_errors() {
    let mut s = SoroSusu::new();
    let creator = 1u64;
    let id = s.create_circle(creator, 1000, false, 1000, WEEK, 0);
    s.join_circle(10, id).unwrap();
    s.join_circle(11, id).unwrap();
    assert_eq!(
        s.trigger_insurance_coverage(99, id, 11),
        Err(Error::Unauthorized)
    );
    // the fund is empty
    assert_eq!(
        s.trigger_insurance_coverage(creator, id, 11),
        Err(Error::InsufficientBalance)
    );
    for _ in 0..10 {
        s.deposit(10, id, 0).unwrap();
    }
    // the covered member has already contributed
    assert_eq!(
        s.trigger_insurance_coverage(creator, id, 10),
        Err(Error::InvalidCircleState)
    );
    assert_eq!(s.trigger_insurance_coverage(creator, id, 11), Ok(()));
    // only once per cycle
    assert_eq!(
        s.trigger_insurance_coverage(creator, id, 11),
        Err(Error::InvalidCircleState)
    );
}

#[test]
fn rollover_resets_insurance_use_and_dues_flags() {
    let mut s = SoroSusu::new();
    let admin = 1u64;
    let id = s.create_circle(admin, 100, false, 1000, WEEK, 0);
    s.join_circle(10, id).unwrap();
    s.finalize_circle(admin, id, None).unwrap();
    for _ in 0..10 {
        s.deposit(10, id, 0).unwrap();
    }
    s.trigger_insurance_coverage(admin, id, 10).ok();
    assert!(s.circles[0].members[0].has_contributed);
    s.process_payout(admin, id, 10).unwrap();
    s.rollover_group(admin, id).unwrap();
    assert!(!s.circles[0].is_insurance_used);
    assert!(!s.circles[0].members[0].has_contributed);
    assert_eq!(s.circles[0].members[0].status, MemberStatus::Active);
}
