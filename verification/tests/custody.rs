//! Funds custody: dues deposits with late fees and insurance
//! surcharges, pro-rata withdrawal after dissolution, the protocol
//! configuration, and the emergency-withdrawal safety valve.

use sorosusu::errors::Error;
use sorosusu::protocol::SoroSusu;
use sorosusu::EMERGENCY_WITHDRAWAL_DELAY;

const WEEK: u64 = 604800;

#[test]
fn test_late_penalty_mechanism() {
    let mut s = SoroSusu::new();
    let creator = 1u64;
    let user = 10u64;
    // $10 contribution (6 decimals), one-week cycles, created at time 0
    let id = s.create_circle(creator, 1000, false, 0, WEEK, 0);
    s.join_circle(user, id).unwrap();
    assert_eq!(s.circles[0].group_reserve, 0);
    // two weeks pass: the deposit is late, a 1% penalty applies
    let late = 2 * WEEK;
    assert_eq!(s.deposit(user, id, late), Ok(1010));
    assert_eq!(s.circles[0].group_reserve, 10);
    // the member was marked as having contributed
    assert!(s.circles[0].members[0].has_contributed);
    assert_eq!(s.circles[0].members[0].contribution_count, 1);
    // the deadline rolled forward one cycle from the previous deadline
    assert_eq!(s.circles[0].deadline_timestamp, 2 * WEEK);
}

#[test]
fn test_on_time_deposit_no_penalty() {
    let mut s = SoroSusu::new();
    let creator = 1u64;
    let user = 10u64;
    let id = s.create_circle(creator, 1000, false, 0, WEEK, 0);
    s.join_circle(user, id).unwrap();
    assert_eq!(s.circles[0].group_reserve, 0);
    // deposited before the deadline: no penalty
    assert_eq!(s.deposit(user, id, 0), Ok(1000));
    assert_eq!(s.circles[0].group_reserve, 0);
    assert_eq!(s.circles[0].balance, 1000);
}

#[test]
fn deposit_by_stranger() {
    let mut s = SoroSusu::new();
    let id = s.create_circle(1, 1000, false, 0, WEEK, 0);
    assert_eq!(s.deposit(99, id, 0), Err(Error::MemberNotFound));
}

#[test]
fn withdraw_pro_rata_after_dissolution() {
    let mut s = SoroSusu::new();
    let admin = 1u64;
    let id = s.create_circle(admin, 100, false, 0, WEEK, 0);
    for m in [10u64, 11u64] {
        s.join_circle(m, id).unwrap();
        s.deposit(m, id, 0).unwrap();
    }
    s.finalize_circle(admin, id, None).unwrap();
    s.process_payout(admin, id, 10).unwrap();
    // before dissolution, nothing can be withdrawn
    assert_eq!(s.withdraw_pro_rata(10, id), Err(Error::NotDissolved));
    s.vote_dissolve(10, id).unwrap();
    assert_eq!(s.vote_dissolve(11, id), Ok(true));
    // 10 was already paid out once: 100 paid in - 100 received = 0
    assert_eq!(s.withdraw_pro_rata(10, id), Ok(0));
    // 11 reclaims the full 100 paid in
    assert_eq!(s.withdraw_pro_rata(11, id), Ok(100));
    assert_eq!(s.circles[0].balance, 0);
    // a second call is idempotent, not an error
    assert_eq!(s.withdraw_pro_rata(11, id), Ok(0));
    assert_eq!(s.withdraw_pro_rata(99, id), Err(Error::MemberNotFound));
}

#[test]
fn initialize_once() {
    let mut s = SoroSusu::new();
    assert_eq!(s.initialize(500), Ok(()));
    assert_eq!(s.initialize(501), Err(Error::Unauthorized));
    assert_eq!(s.admin, Some(500));
}

#[test]
fn set_protocol_fee_rejects_over_max() {
    let mut s = SoroSusu::new();
    s.initialize(500).unwrap();
    assert_eq!(
        s.set_protocol_fee(500, 10001, 600),
        Err(Error::InvalidFeeConfig)
    );
    assert_eq!(s.set_protocol_fee(99, 50, 600), Err(Error::Unauthorized));
    assert_eq!(s.set_protocol_fee(500, 50, 600), Ok(()));
    assert_eq!(s.fee_basis_points(), 50);
    assert_eq!(s.treasury_address(), Some(600));
}

#[test]
fn fee_zero_accepted_and_getter_returns_zero() {
    let mut s = SoroSusu::new();
    s.initialize(500).unwrap();
    assert_eq!(s.fee_basis_points(), 0);
    assert_eq!(s.treasury_address(), None);
    s.set_protocol_fee(500, 0, 600).unwrap();
    assert_eq!(s.fee_basis_points(), 0);
}

#[test]
fn emergency_withdrawal_gated_by_inactivity() {
    let mut s = SoroSusu::new();
    s.initialize(500).unwrap();
    let user = 10u64;
    s.custody_deposit(user, 250);
    // the admin acts at time t
    let t = 1000u64;
    s.admin_action(500, t).unwrap();
    // six days later the delay has not elapsed
    let six_days = 6 * 86400;
    assert_eq!(
        s.emergency_withdraw(user, t + six_days),
        Err(Error::EmergencyWithdrawalNotAvailable)
    );
    // exactly at the boundary it is still unavailable (strictly after)
    assert_eq!(
        s.emergency_withdraw(user, t + EMERGENCY_WITHDRAWAL_DELAY),
        Err(Error::EmergencyWithdrawalNotAvailable)
    );
    // one second past the delay the user reclaims everything
    assert_eq!(
        s.emergency_withdraw(user, t + EMERGENCY_WITHDRAWAL_DELAY + 1),
        Ok(250)
    );
    // and the entry is zeroed
    assert_eq!(
        s.emergency_withdraw(user, t + EMERGENCY_WITHDRAWAL_DELAY + 1),
        Ok(0)
    );
}

#[test]
fn admin_action_resets_the_clock() {
    let mut s = SoroSusu::new();
    s.initialize(500).unwrap();
    s.custody_deposit(10, 42);
    let t = 1_000_000u64;
    s.admin_action(500, t).unwrap();
    // the admin acts again later; the earlier inactivity does not count
    let t2 = t + 5 * 86400;
    s.admin_action(500, t2).unwrap();
    assert_eq!(
        s.emergency_withdraw(10, t + EMERGENCY_WITHDRAWAL_DELAY + 1),
        Err(Error::EmergencyWithdrawalNotAvailable)
    );
    assert_eq!(
        s.emergency_withdraw(10, t2 + EMERGENCY_WITHDRAWAL_DELAY + 1),
        Ok(42)
    );
    assert_eq!(s.admin_action(99, 0), Err(Error::Unauthorized));
}

#[test]
fn custody_deposits_accumulate_per_user() {
    let mut s = SoroSusu::new();
    s.custody_deposit(10, 100);
    s.custody_deposit(11, 7);
    s.custody_deposit(10, 50);
    // never gated for a protocol whose admin never acted at time far out
    let far = EMERGENCY_WITHDRAWAL_DELAY + 1;
    assert_eq!(s.emergency_withdraw(11, far), Ok(7));
    assert_eq!(s.emergency_withdraw(10, far), Ok(150));
    // a user with no entry reclaims zero
    assert_eq!(s.emergency_withdraw(99, far), Ok(0));
}
