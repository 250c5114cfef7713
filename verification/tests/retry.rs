use moget::retry::RetryPolicy;

#[test]
fn tries_again_as_often_as_allowed() {
    let mut policy = RetryPolicy::new(3);
    let again: Vec<bool> = (0..5).map(|_| policy.retry(true)).collect();
    assert_eq!(again, vec![true, true, true, false, false]);
}

#[test]
fn only_failed_transfers_are_tried_again() {
    let mut policy = RetryPolicy::new(1);
    assert!(!policy.retry(false));
    assert!(!policy.retry(false));
    assert!(policy.retry(true));
    assert!(!policy.retry(true));
}

#[test]
fn first_failures_are_tried_again() {
    let mut policy = RetryPolicy::new(2);
    let failed = [false, true, false, true, true, false, true];
    let again: Vec<bool> = failed.iter().map(|&failed| policy.retry(failed)).collect();
    assert_eq!(again, vec![false, true, false, true, false, false, false]);
}

#[test]
fn never_where_no_retries_are_allowed() {
    assert!(!RetryPolicy::new(0).retry(true));
}

#[test]
fn copies_have_tries_of_their_own() {
    let mut policy = RetryPolicy::new(2);
    assert!(policy.retry(true));
    let mut copy = policy.clone();
    assert!(copy.retry(true));
    assert!(!copy.retry(true));
    assert!(policy.retry(true));
}
