use port_knocker::retry::{classify, AttemptOutcome, RetryAction, RetryPolicy};

/// Runs the driver over the given outcomes, one per attempt, and returns every
/// action it asked for.
fn actions(policy: &RetryPolicy, outcomes: Vec<AttemptOutcome<u8>>) -> Vec<RetryAction<u8>> {
    let mut out = Vec::new();
    let mut queue = policy.start::<u8>();
    let mut outs = outcomes.into_iter();
    loop {
        let mut next_attempt = None;
        for a in queue {
            if let RetryAction::Attempt(i) = a {
                next_attempt = Some(i);
            }
            out.push(a);
        }
        match next_attempt {
            Some(i) => match outs.next() {
                Some(o) => queue = policy.after(i, o),
                None => return out,
            },
            None => return out,
        }
    }
}

fn count(v: &[RetryAction<u8>], f: fn(&RetryAction<u8>) -> bool) -> usize {
    v.iter().filter(|a| f(a)).count()
}

fn is_attempt(a: &RetryAction<u8>) -> bool {
    matches!(a, RetryAction::Attempt(_))
}

fn is_sleep(a: &RetryAction<u8>) -> bool {
    matches!(a, RetryAction::Sleep(_))
}

fn is_report(a: &RetryAction<u8>) -> bool {
    matches!(a, RetryAction::ReportTimeout(_))
}

#[test]
fn done_on_first_attempt_stops() {
    let p = RetryPolicy::new(3, 500, 100);
    let t = actions(&p, vec![AttemptOutcome::Done]);
    assert_eq!(t.len(), 2);
    assert!(matches!(t[0], RetryAction::Attempt(1)));
    assert!(matches!(t[1], RetryAction::Finish(Ok(()))));
}

#[test]
fn fatal_stops_with_error() {
    let p = RetryPolicy::new(3, 500, 100);
    let t = actions(&p, vec![AttemptOutcome::Retry, AttemptOutcome::Fatal(7)]);
    assert_eq!(count(&t, is_attempt), 2);
    assert_eq!(count(&t, is_sleep), 1);
    assert!(matches!(t.last(), Some(RetryAction::Finish(Err(7)))));
}

#[test]
fn exhaustion_is_not_an_error() {
    let p = RetryPolicy::new(3, 500, 250);
    let t = actions(&p, vec![AttemptOutcome::Retry, AttemptOutcome::Retry, AttemptOutcome::Retry]);
    assert_eq!(count(&t, is_attempt), 3);
    assert_eq!(count(&t, is_sleep), 2);
    assert!(matches!(t[1], RetryAction::Sleep(250)));
    assert!(matches!(t.last(), Some(RetryAction::Finish(Ok(())))));
}

#[test]
fn attempts_never_exceed_retries() {
    let p = RetryPolicy::new(2, 10, 5);
    let many = (0..6).map(|_| AttemptOutcome::TimedOut).collect();
    let t = actions(&p, many);
    assert_eq!(count(&t, is_attempt), 2);
    assert_eq!(count(&t, is_sleep), 1);
    assert_eq!(count(&t, is_report), 2);
    assert!(!is_sleep(&t[0]));
}

#[test]
fn zero_retries_finishes_at_once() {
    let p = RetryPolicy::new(0, 10, 5);
    let t = actions(&p, vec![AttemptOutcome::Done]);
    assert_eq!(t.len(), 1);
    assert!(matches!(t[0], RetryAction::Finish(Ok(()))));
}

#[test]
fn timeout_then_success_on_last_attempt() {
    let p = RetryPolicy::new(2, 500, 100);
    let t = actions(&p, vec![AttemptOutcome::TimedOut, AttemptOutcome::Done]);
    assert_eq!(count(&t, is_report), 1);
    assert_eq!(count(&t, is_sleep), 1);
    assert_eq!(count(&t, is_attempt), 2);
    assert!(matches!(t[1], RetryAction::ReportTimeout(1)));
    assert!(matches!(t.last(), Some(RetryAction::Finish(Ok(())))));
}

#[test]
fn timeout_then_success_with_four_attempts() {
    let p = RetryPolicy::new(4, 500, 100);
    let outs = vec![
        AttemptOutcome::Retry,
        AttemptOutcome::TimedOut,
        AttemptOutcome::Retry,
        AttemptOutcome::Done,
    ];
    let t = actions(&p, outs);
    assert_eq!(count(&t, is_report), 1);
    assert_eq!(count(&t, is_sleep), 3);
    assert_eq!(count(&t, is_attempt), 4);
    assert!(matches!(t.last(), Some(RetryAction::Finish(Ok(())))));
}

#[test]
fn udp_no_reply_three_attempts() {
    let p = RetryPolicy::new(3, 200, 50);
    // each attempt: the datagram goes out, no reply comes within the deadline
    let outs: Vec<AttemptOutcome<u8>> = (0..3).map(|_| classify(None)).collect();
    let t = actions(&p, outs);
    assert_eq!(count(&t, is_attempt), 3);
    assert_eq!(count(&t, is_sleep), 2);
    assert!(matches!(t.last(), Some(RetryAction::Finish(Ok(())))));
}

#[test]
fn attempt_outcomes() {
    assert!(matches!(classify::<u8>(Some(Ok(true))), AttemptOutcome::Done));
    assert!(matches!(classify::<u8>(Some(Ok(false))), AttemptOutcome::Retry));
    assert!(matches!(classify::<u8>(Some(Err(4))), AttemptOutcome::Fatal(4)));
    assert!(matches!(classify::<u8>(None), AttemptOutcome::TimedOut));
}
