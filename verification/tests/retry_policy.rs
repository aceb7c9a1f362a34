use news_ingest::retry::Attempt;
use news_ingest::retry::Backoff;
use news_ingest::retry::NextStep;
use news_ingest::retry::OpError;
use news_ingest::retry::RetryDecision;
use news_ingest::retry::classify;
use news_ingest::retry::retry_step;

#[test]
fn classification_follows_the_taxonomy() {
    // A duplicate key on a deduplicating insert is success-equivalent; on
    // any other table it is just another backend error and is retried.
    assert_eq!(classify(OpError::DuplicateKey, true), RetryDecision::Swallow);
    assert_eq!(classify(OpError::DuplicateKey, false), RetryDecision::Retry);
    assert_eq!(classify(OpError::Backend, true), RetryDecision::Retry);
    assert_eq!(classify(OpError::Backend, false), RetryDecision::Retry);
    assert_eq!(classify(OpError::Input, true), RetryDecision::Fail);
    assert_eq!(classify(OpError::Input, false), RetryDecision::Fail);
}

#[test]
fn backoff_grows_geometrically_to_the_ceiling() {
    let mut b = Backoff::new();
    assert_eq!(b.current_ms, 500);
    b.next_delay(0);
    assert_eq!(b.current_ms, 750);
    b.next_delay(0);
    assert_eq!(b.current_ms, 1125);
    for _ in 0..40 {
        b.next_delay(7);
    }
    assert_eq!(b.current_ms, 60_000);
}

#[test]
fn delays_are_jittered_within_half_an_interval() {
    // With a 500 ms interval the window is 250..=750, and the draw pins the
    // delay exactly: 250 + jitter % 501.
    let mut b = Backoff::new();
    assert_eq!(b.next_delay(0), 250);
    let mut b = Backoff::new();
    assert_eq!(b.next_delay(500), 750);
    let mut b = Backoff::new();
    assert_eq!(b.next_delay(501), 250);
    let mut b = Backoff::new();
    assert_eq!(b.next_delay(123456789), 250 + 123456789 % 501);
    for draw in [0u64, 1, 17, u64::MAX] {
        let mut b = Backoff::new();
        let d = b.next_delay(draw);
        assert!((250..=750).contains(&d));
    }
}

#[test]
fn retry_step_drives_the_loop() {
    let mut b = Backoff::new();
    match retry_step(&mut b, Attempt::Success(41i64), false, 9) {
        NextStep::Done(v) => assert_eq!(v, 41),
        _ => panic!("success must pass through"),
    }
    assert_eq!(b.current_ms, 500);

    match retry_step::<i64>(&mut b, Attempt::Failure(OpError::Backend), false, 0) {
        NextStep::Sleep(d) => assert_eq!(d, 250),
        _ => panic!("transient failures are retried"),
    }
    assert_eq!(b.current_ms, 750);

    match retry_step::<i64>(&mut b, Attempt::Failure(OpError::DuplicateKey), true, 0) {
        NextStep::AlreadyDone => {}
        _ => panic!("a duplicate on a deduplicating insert counts as done"),
    }
    assert_eq!(b.current_ms, 750);

    match retry_step::<i64>(&mut b, Attempt::Failure(OpError::Input), true, 0) {
        NextStep::Abort(e) => assert_eq!(e, OpError::Input),
        _ => panic!("permanent failures propagate"),
    }
}
