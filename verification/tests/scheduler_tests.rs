use expression::scheduler::RefreshScheduler;

#[test]
fn test_scheduler_halves_until_settling() {
    let mut s = RefreshScheduler::new(900);
    let mut sleeps = Vec::new();
    loop {
        match s.next_sleep() {
            Some(d) => {
                sleeps.push(d);
                if s.wants_recheck() {
                    // Same hour, wait unchanged: halving continues.
                    s.observe(false, 900);
                }
            }
            None => break,
        }
    }
    // 900 halves to 450, 225, ..., 1, and one final settling second.
    assert_eq!(sleeps, vec![450, 225, 112, 56, 28, 14, 7, 3, 1, 1]);
}

#[test]
fn test_scheduler_wake_count_is_logarithmic() {
    let mut s = RefreshScheduler::new(60 * 60);
    let mut wakes = 0;
    while let Some(_) = s.next_sleep() {
        wakes += 1;
        if s.wants_recheck() {
            s.observe(false, u64::MAX);
        }
    }
    assert!(wakes <= 13, "an hour's wait needs at most log-many wakes");
}

#[test]
fn test_scheduler_stops_on_hour_rollover() {
    let mut s = RefreshScheduler::new(1800);
    let first = s.next_sleep();
    assert_eq!(first, Some(900));
    assert!(s.wants_recheck());
    // The clock rolled into the next hour while sleeping: the wait is over.
    s.observe(true, 0);
    assert_eq!(s.next_sleep(), None);
}

#[test]
fn test_scheduler_adopts_smaller_recomputed_wait() {
    let mut s = RefreshScheduler::new(1000);
    assert_eq!(s.next_sleep(), Some(500));
    // The re-validated wait came out smaller (the clock jumped forward):
    // it replaces the halved remainder.
    s.observe(false, 60);
    assert_eq!(s.next_sleep(), Some(30));
    // A larger re-validated wait is ignored.
    s.observe(false, 800);
    assert_eq!(s.next_sleep(), Some(15));
}

#[test]
fn test_scheduler_tiny_wait_still_sleeps_once() {
    let mut s = RefreshScheduler::new(1);
    assert_eq!(s.next_sleep(), Some(1));
    assert!(!s.wants_recheck());
    assert_eq!(s.next_sleep(), None);
}
