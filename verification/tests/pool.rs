use aes_ctr::pool::{worker_count, TaskCounter, FALLBACK_WORKERS};

#[test]
fn worker_count_is_the_reported_parallelism_or_four() {
    assert_eq!(FALLBACK_WORKERS, 4);
    assert_eq!(worker_count(Some(1)), 1);
    assert_eq!(worker_count(Some(12)), 12);
    assert_eq!(worker_count(None), 4);
}

#[test]
fn new_counter_is_idle() {
    let counter = TaskCounter::new();
    assert_eq!(counter.outstanding(), 0);
    assert!(counter.is_drained());
    assert!(counter.has_room());
    assert!(!counter.in_scope());
}

#[test]
fn counter_follows_registrations_and_reports() {
    let mut counter = TaskCounter::new();
    counter.enter_scope();
    assert!(counter.in_scope());
    assert!(counter.is_drained());
    counter.register();
    counter.register();
    counter.register();
    assert_eq!(counter.outstanding(), 3);
    assert!(!counter.is_drained());
    assert!(!counter.report_done());
    assert!(!counter.report_done());
    assert_eq!(counter.outstanding(), 1);
    counter.register();
    assert_eq!(counter.outstanding(), 2);
    assert!(!counter.report_done());
    assert!(counter.report_done());
    assert_eq!(counter.outstanding(), 0);
    assert!(counter.is_drained());
    assert!(counter.in_scope());
    counter.leave_scope();
    assert!(!counter.in_scope());
}

#[test]
fn scope_leaves_the_counter_as_it_found_it() {
    let mut counter = TaskCounter::new();
    for _ in 0..3 {
        let before = counter.outstanding();
        counter.enter_scope();
        for _ in 0..32000 {
            assert!(counter.has_room());
            counter.register();
        }
        assert_eq!(counter.outstanding(), 32000);
        let mut woken = 0;
        for _ in 0..32000 {
            if counter.report_done() {
                woken += 1;
            }
        }
        assert_eq!(woken, 1);
        assert!(counter.is_drained());
        counter.leave_scope();
        assert_eq!(counter.outstanding(), before);
    }
}

#[test]
fn empty_scope_returns_at_once() {
    let mut counter = TaskCounter::new();
    counter.enter_scope();
    assert!(counter.is_drained());
    counter.leave_scope();
    assert!(!counter.in_scope());
    assert_eq!(counter.outstanding(), 0);
}
