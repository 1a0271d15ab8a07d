use file_storage::barrier::{Barrier, Release};
use file_storage::error::CustomError;

#[test]
fn barrier_of_zero_is_satisfied_at_once() {
    let barrier = Barrier::new(0);
    assert!(barrier.is_satisfied());
    assert_eq!(barrier.poll(), Release::Satisfied);
    assert_eq!(barrier.remaining(), 0);
    assert_eq!(barrier.expected(), 0);
}

#[test]
fn barrier_waits_for_exactly_the_expected_count() {
    let mut barrier = Barrier::new(3);
    assert_eq!(barrier.poll(), Release::Waiting);
    assert_eq!(barrier.remaining(), 3);
    barrier.signal();
    assert!(!barrier.is_satisfied());
    assert_eq!(barrier.remaining(), 2);
    barrier.signal();
    assert_eq!(barrier.poll(), Release::Waiting);
    assert_eq!(barrier.remaining(), 1);
    barrier.signal();
    assert!(barrier.is_satisfied());
    assert_eq!(barrier.poll(), Release::Satisfied);
    assert_eq!(barrier.remaining(), 0);
    assert_eq!(barrier.expected(), 3);
}

#[test]
fn completions_beyond_the_expected_count_are_not_counted() {
    let mut barrier = Barrier::new(1);
    barrier.signal();
    barrier.signal();
    barrier.signal();
    assert_eq!(barrier.remaining(), 0);
    assert!(barrier.is_satisfied());
}

#[test]
fn first_failure_is_kept() {
    let mut barrier = Barrier::new(2);
    barrier.fail(CustomError::ConnectionError("pool timed out".to_string()));
    barrier.fail(CustomError::DatabaseError("insert failed".to_string()));
    assert_eq!(
        barrier.poll(),
        Release::Failed(CustomError::ConnectionError("pool timed out".to_string()))
    );
    assert!(!barrier.is_satisfied());
}

#[test]
fn failure_outlasts_later_completions() {
    let mut barrier = Barrier::new(2);
    barrier.signal();
    barrier.fail(CustomError::SendError("sending on a closed channel".to_string()));
    barrier.signal();
    assert_eq!(barrier.remaining(), 0);
    assert!(!barrier.is_satisfied());
    assert_eq!(
        barrier.poll(),
        Release::Failed(CustomError::SendError("sending on a closed channel".to_string()))
    );
}

#[test]
fn failure_on_a_barrier_of_zero() {
    let mut barrier = Barrier::new(0);
    barrier.fail(CustomError::NullError);
    assert_eq!(barrier.poll(), Release::Failed(CustomError::NullError));
}
