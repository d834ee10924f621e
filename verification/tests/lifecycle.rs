//! Circle lifecycle: creation, admission, queue finalization, payouts
//! and cycle rollover.

use sorosusu::errors::Error;
use sorosusu::protocol::SoroSusu;

const WEEK: u64 = 604800;

#[test]
fn create_circle_works() {
    let mut s = SoroSusu::new();
    let id = s.create_circle(1, 100, false, 0, WEEK, 0);
    assert_eq!(id, 1);
    let id2 = s.create_circle(7, 250, true, 0, WEEK, 0);
    assert_eq!(id2, 2);
    assert_eq!(s.circles.len(), 2);
    assert_eq!(s.circles[0].admin, 1);
    assert_eq!(s.circles[0].contribution, 100);
    assert_eq!(s.circles[0].cycle_number, 1);
    assert_eq!(s.circles[0].members.len(), 0);
    assert!(s.circles[1].is_random_queue);
}

#[test]
fn join_circle_enforces_max_members() {
    let mut s = SoroSusu::new();
    let admin = 1u64;
    let id = s.create_circle(admin, 10, false, 0, WEEK, 0);
    for m in 0..50u64 {
        assert_eq!(s.join_circle(1000 + m, id), Ok(()));
    }
    assert_eq!(s.join_circle(2000, id), Err(Error::MaxMembersReached));
    assert_eq!(s.circles[0].members.len(), 50);
}

#[test]
fn test_sequential_queue_finalization() {
    let mut s = SoroSusu::new();
    let admin = 1u64;
    let id = s.create_circle(admin, 10, false, 0, WEEK, 0);
    let members: Vec<u64> = (10..15u64).collect();
    for m in &members {
        assert_eq!(s.join_circle(*m, id), Ok(()));
    }
    assert_eq!(s.finalize_circle(admin, id, None), Ok(()));
    let queue = s.get_payout_queue(id).unwrap();
    assert_eq!(queue.len(), 5);
    for (i, m) in members.iter().enumerate() {
        assert_eq!(queue[i], *m);
    }
}

#[test]
fn test_random_queue_finalization() {
    let mut s = SoroSusu::new();
    let admin = 1u64;
    let id = s.create_circle(admin, 10, true, 0, WEEK, 0);
    let members: Vec<u64> = (10..15u64).collect();
    for m in &members {
        assert_eq!(s.join_circle(*m, id), Ok(()));
    }
    // the host supplies the shuffled order; here, the reverse
    let shuffled: Vec<u64> = members.iter().rev().cloned().collect();
    assert_eq!(s.finalize_circle(admin, id, Some(&shuffled)), Ok(()));
    let queue = s.get_payout_queue(id).unwrap();
    assert_eq!(queue.len(), 5);
    for m in &members {
        assert!(queue.contains(m));
    }
}

#[test]
fn finalize_is_idempotent() {
    let mut s = SoroSusu::new();
    let id = s.create_circle(1, 10, false, 0, WEEK, 0);
    s.join_circle(10, id).unwrap();
    s.join_circle(11, id).unwrap();
    assert_eq!(s.finalize_circle(1, id, None), Ok(()));
    let queue1 = s.get_payout_queue(id).unwrap();
    // a second call is a no-op, even with a different order supplied
    let other: Vec<u64> = vec![11, 10];
    assert_eq!(s.finalize_circle(1, id, Some(&other)), Ok(()));
    assert_eq!(s.get_payout_queue(id).unwrap(), queue1);
}

#[test]
fn random_finalize_rejects_bad_order() {
    let mut s = SoroSusu::new();
    let id = s.create_circle(1, 10, true, 0, WEEK, 0);
    s.join_circle(10, id).unwrap();
    s.join_circle(11, id).unwrap();
    // no order supplied
    assert_eq!(s.finalize_circle(1, id, None), Err(Error::InvalidCircleState));
    // wrong length
    let short: Vec<u64> = vec![10];
    assert_eq!(s.finalize_circle(1, id, Some(&short)), Err(Error::InvalidCircleState));
    // repeats
    let dup: Vec<u64> = vec![10, 10];
    assert_eq!(s.finalize_circle(1, id, Some(&dup)), Err(Error::InvalidCircleState));
    // a stranger in the order
    let stranger: Vec<u64> = vec![10, 99];
    assert_eq!(s.finalize_circle(1, id, Some(&stranger)), Err(Error::InvalidCircleState));
    // a correct permutation is accepted
    let good: Vec<u64> = vec![11, 10];
    assert_eq!(s.finalize_circle(1, id, Some(&good)), Ok(()));
    assert_eq!(s.get_payout_queue(id).unwrap(), vec![11, 10]);
}

#[test]
fn join_after_finalize_is_refused() {
    let mut s = SoroSusu::new();
    let id = s.create_circle(1, 10, false, 0, WEEK, 0);
    s.join_circle(10, id).unwrap();
    s.finalize_circle(1, id, None).unwrap();
    assert_eq!(s.join_circle(11, id), Err(Error::InvalidCircleState));
}

#[test]
fn test_process_payout_and_cycle_completion() {
    let mut s = SoroSusu::new();
    let admin = 1u64;
    let id = s.create_circle(admin, 100, false, 0, WEEK, 0);
    let members: Vec<u64> = vec![10, 11, 12];
    for m in &members {
        s.join_circle(*m, id).unwrap();
    }
    s.finalize_circle(admin, id, None).unwrap();
    // every member pays dues, funding the pool
    for m in &members {
        assert_eq!(s.deposit(*m, id, 0), Ok(100));
    }
    assert_eq!(s.circles[0].balance, 300);
    // the payout flags track the roster (one flag per slot)
    assert_eq!(
        s.get_payout_status(id).unwrap().len(),
        s.circles[0].members.len()
    );
    let first = s.process_payout(admin, id, 10).unwrap();
    assert!(!first.cycle_completed);
    assert_eq!(first.gross_amount, 100);
    assert_eq!(first.net_amount, 100); // no protocol fee configured
    assert_eq!(first.fee_amount, 0);
    let second = s.process_payout(admin, id, 11).unwrap();
    assert!(!second.cycle_completed);
    // the third and last payout completes the cycle
    let third = s.process_payout(admin, id, 12).unwrap();
    assert!(third.cycle_completed);
    assert_eq!(third.total_volume_distributed, 300);
    let (cycle, index, volume) = s.get_cycle_info(id).unwrap();
    assert_eq!(cycle, 1);
    assert_eq!(index, 3);
    assert_eq!(volume, 300);
}

#[test]
fn test_group_rollover() {
    let mut s = SoroSusu::new();
    let admin = 1u64;
    let id = s.create_circle(admin, 50, false, 0, WEEK, 0);
    for m in [10u64, 11u64] {
        s.join_circle(m, id).unwrap();
    }
    s.finalize_circle(admin, id, None).unwrap();
    let queue_before = s.get_payout_queue(id).unwrap();
    for m in [10u64, 11u64] {
        s.deposit(m, id, 0).unwrap();
    }
    for m in [10u64, 11u64] {
        s.process_payout(admin, id, m).unwrap();
    }
    assert_eq!(s.rollover_group(admin, id), Ok(2));
    let (cycle, index, volume) = s.get_cycle_info(id).unwrap();
    assert_eq!(cycle, 2);
    assert_eq!(index, 0);
    assert_eq!(volume, 0);
    // every payout flag is reset, the queue order is unchanged
    assert!(s.get_payout_status(id).unwrap().iter().all(|paid| !paid));
    assert_eq!(s.get_payout_queue(id).unwrap(), queue_before);
}

#[test]
fn empty_circle_edges() {
    let mut s = SoroSusu::new();
    let id = s.create_circle(1, 10, false, 0, WEEK, 0);
    // finalizing an empty roster commits nothing and stays open
    assert_eq!(s.finalize_circle(1, id, None), Ok(()));
    assert_eq!(s.get_payout_queue(id).unwrap(), Vec::<u64>::new());
    // an empty cycle is vacuously complete
    assert_eq!(s.rollover_group(1, id), Ok(2));
}

#[test]
fn circle_not_found() {
    let mut s = SoroSusu::new();
    assert_eq!(s.join_circle(10, 1), Err(Error::CircleNotFound));
    let id = s.create_circle(1, 10, false, 0, WEEK, 0);
    assert_eq!(s.join_circle(10, id), Ok(()));
    assert_eq!(s.join_circle(10, 2), Err(Error::CircleNotFound));
    assert_eq!(s.join_circle(10, 0), Err(Error::CircleNotFound));
    assert!(s.get_cycle_info(99).is_err());
}

#[test]
fn errors_describe_themselves() {
    assert_eq!(Error::CircleNotFound.describe(), "circle not found");
    assert_eq!(Error::PayoutAlreadyReceived.describe(), "payout already received");
    assert_eq!(Error::CycleNotComplete.describe(), "cycle not complete");
}

#[test]
fn already_joined() {
    let mut s = SoroSusu::new();
    let id = s.create_circle(1, 10, false, 0, WEEK, 0);
    assert_eq!(s.join_circle(10, id), Ok(()));
    assert_eq!(s.join_circle(10, id), Err(Error::AlreadyJoined));
}
