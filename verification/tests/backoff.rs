use real_time::backoff::Backoff;

#[test]
fn a_new_backoff_is_not_completed() {
    let backoff = Backoff::default();
    assert!(!backoff.is_completed());
}

#[test]
fn snoozing_long_enough_completes_the_backoff() {
    let mut backoff = Backoff::default();

    for _ in 0..10 {
        backoff.snooze();
        assert!(!backoff.is_completed());
    }

    backoff.snooze();
    assert!(backoff.is_completed());

    backoff.snooze();
    assert!(backoff.is_completed());
}

#[test]
fn spinning_alone_never_completes_the_backoff() {
    let mut backoff = Backoff::default();

    for _ in 0..20 {
        backoff.spin();
        assert!(!backoff.is_completed());
    }
}

#[test]
fn spins_count_towards_completion() {
    let mut backoff = Backoff::default();

    for _ in 0..20 {
        backoff.spin();
    }

    for _ in 0..3 {
        backoff.snooze();
        assert!(!backoff.is_completed());
    }

    backoff.snooze();
    assert!(backoff.is_completed());
}
