//! Settlement safety: authorization, double-payout protection, the
//! insolvency guard, and rollover preconditions.

use sorosusu::errors::Error;
use sorosusu::protocol::SoroSusu;

const WEEK: u64 = 604800;

#[test]
fn test_payout_unauthorized() {
    let mut s = SoroSusu::new();
    let admin = 1u64;
    let id = s.create_circle(admin, 10, false, 0, WEEK, 0);
    s.join_circle(10, id).unwrap();
    s.finalize_circle(admin, id, None).unwrap();
    s.deposit(10, id, 0).unwrap();
    let intruder = 99u64;
    assert_eq!(
        s.process_payout(intruder, id, 10),
        Err(Error::Unauthorized)
    );
    // the admin succeeds on the very same call
    assert!(s.process_payout(admin, id, 10).is_ok());
}

#[test]
fn test_duplicate_payout() {
    let mut s = SoroSusu::new();
    let admin = 1u64;
    let id = s.create_circle(admin, 10, false, 0, WEEK, 0);
    s.join_circle(10, id).unwrap();
    s.finalize_circle(admin, id, None).unwrap();
    s.deposit(10, id, 0).unwrap();
    s.deposit(10, id, 0).unwrap();
    assert!(s.process_payout(admin, id, 10).is_ok());
    // paying the same member again always fails, funds or not
    assert_eq!(
        s.process_payout(admin, id, 10),
        Err(Error::PayoutAlreadyReceived)
    );
}

#[test]
fn payout_to_stranger_or_ejected() {
    let mut s = SoroSusu::new();
    let admin = 1u64;
    let id = s.create_circle(admin, 10, false, 0, WEEK, 0);
    s.join_circle(10, id).unwrap();
    s.deposit(10, id, 0).unwrap();
    assert_eq!(s.process_payout(admin, id, 99), Err(Error::MemberNotFound));
    s.eject_member(admin, id, 10).unwrap();
    assert_eq!(s.process_payout(admin, id, 10), Err(Error::NotMember));
}

#[test]
fn insolvency_guard_refuses_underfunded_payout() {
    let mut s = SoroSusu::new();
    let admin = 1u64;
    let id = s.create_circle(admin, 100, false, 0, WEEK, 0);
    s.join_circle(10, id).unwrap();
    s.join_circle(11, id).unwrap();
    s.finalize_circle(admin, id, None).unwrap();
    // nothing deposited: the pool cannot cover a payout
    assert_eq!(
        s.process_payout(admin, id, 10),
        Err(Error::InsufficientBalance)
    );
    // one deposit covers exactly one payout
    assert_eq!(s.deposit(10, id, 0), Ok(100));
    assert_eq!(s.circles[0].balance, 100);
    assert!(s.process_payout(admin, id, 10).is_ok());
    assert_eq!(s.circles[0].balance, 0);
    // and the next payout is refused again rather than underflowing
    assert_eq!(
        s.process_payout(admin, id, 11),
        Err(Error::InsufficientBalance)
    );
}

#[test]
fn test_rollover_before_cycle_complete() {
    let mut s = SoroSusu::new();
    let admin = 1u64;
    let id = s.create_circle(admin, 10, false, 0, WEEK, 0);
    s.join_circle(10, id).unwrap();
    assert_eq!(s.rollover_group(admin, id), Err(Error::CycleNotComplete));
    assert_eq!(s.rollover_group(99, id), Err(Error::Unauthorized));
}

#[test]
fn protocol_fee_split_on_payout() {
    let mut s = SoroSusu::new();
    let protocol_admin = 500u64;
    s.initialize(protocol_admin).unwrap();
    let treasury = 600u64;
    // 50 bps = 0.5%
    s.set_protocol_fee(protocol_admin, 50, treasury).unwrap();
    let admin = 1u64;
    let id = s.create_circle(admin, 10000, false, 0, WEEK, 0);
    s.join_circle(10, id).unwrap();
    s.finalize_circle(admin, id, None).unwrap();
    s.deposit(10, id, 0).unwrap();
    let out = s.process_payout(admin, id, 10).unwrap();
    assert_eq!(out.gross_amount, 10000);
    assert_eq!(out.fee_amount, 50); // floor(10000 * 50 / 10000)
    assert_eq!(out.net_amount, 9950);
}

#[test]
fn fee_without_treasury_is_refused() {
    // a nonzero fee rate with no treasury configured cannot split the
    // payout: the call fails before any state moves
    let mut s = SoroSusu::new();
    s.fee_bps = 100;
    let admin = 1u64;
    let id = s.create_circle(admin, 1000, false, 0, WEEK, 0);
    s.join_circle(10, id).unwrap();
    s.deposit(10, id, 0).unwrap();
    let (_, index_before, _) = s.get_cycle_info(id).unwrap();
    assert_eq!(s.process_payout(admin, id, 10), Err(Error::InvalidFeeConfig));
    let (_, index_after, _) = s.get_cycle_info(id).unwrap();
    assert_eq!(index_before, index_after);
    assert_eq!(s.circles[0].balance, 1000);
}

#[test]
fn zero_fee_pays_gross() {
    let mut s = SoroSusu::new();
    s.initialize(500).unwrap();
    s.set_protocol_fee(500, 0, 600).unwrap();
    let id = s.create_circle(1, 777, false, 0, WEEK, 0);
    s.join_circle(10, id).unwrap();
    s.deposit(10, id, 0).unwrap();
    let out = s.process_payout(1, id, 10).unwrap();
    assert_eq!(out.fee_amount, 0);
    assert_eq!(out.net_amount, 777);
}
