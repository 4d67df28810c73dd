use transportation::scheduler::Reactor;

#[test]
fn tokens_are_pairwise_distinct() {
    let mut r = Reactor::new();
    let a = r.insert_listener();
    let b = r.set_timeout(1000, 10);
    let c = r.set_interval(1000, 10);
    let d = r.insert_listener();
    assert_eq!(a, 1);
    assert_eq!(b, 2);
    assert_eq!(c, 3);
    assert_eq!(d, 4);
    assert_ne!(a, b);
    assert_ne!(b, c);
    assert_ne!(c, d);
    assert_ne!(a, d);
}

#[test]
fn token_zero_is_reserved() {
    let mut r = Reactor::new();
    let a = r.insert_listener();
    assert!(a >= 1);
}

#[test]
fn clear_timeout_refuses_an_interval() {
    let mut r = Reactor::new();
    let t = r.set_interval(0, 5);
    assert!(!r.clear_timeout(t));
    assert!(r.clear_interval(t));
    assert!(!r.clear_interval(t));
}

#[test]
fn clear_interval_refuses_a_timeout() {
    let mut r = Reactor::new();
    let t = r.set_timeout(0, 5);
    assert!(!r.clear_interval(t));
    assert!(r.clear_timeout(t));
    assert!(!r.clear_timeout(t));
}

#[test]
fn clear_of_unknown_token_is_false() {
    let mut r = Reactor::new();
    assert!(!r.clear_timeout(77));
    assert!(!r.clear_interval(77));
}

#[test]
fn remove_listener_reports_presence() {
    let mut r = Reactor::new();
    let t = r.insert_listener();
    assert!(r.remove_listener(t));
    assert!(!r.remove_listener(t));
}

#[test]
fn empty_tracks_both_tables() {
    let mut r = Reactor::new();
    assert!(r.empty());
    let t = r.set_timeout(0, 5);
    assert!(!r.empty());
    assert!(r.clear_timeout(t));
    assert!(r.empty());
    let l = r.insert_listener();
    assert!(!r.empty());
    assert!(r.remove_listener(l));
    assert!(r.empty());
}

#[test]
fn soonest_timer_is_earliest_then_lowest_token() {
    let mut r = Reactor::new();
    let _late = r.set_timeout(1000, 50);
    let first_min = r.set_timeout(1000, 10);
    let _second_min = r.set_timeout(1000, 10);
    let (tok, remaining) = r.get_soonest_timeout(1000);
    assert_eq!(tok, Some(first_min));
    assert_eq!(remaining, Some(10));
}

#[test]
fn soonest_timer_overdue_has_zero_wait() {
    let mut r = Reactor::new();
    let t = r.set_timeout(1000, 10);
    let (tok, remaining) = r.get_soonest_timeout(2000);
    assert_eq!(tok, Some(t));
    assert_eq!(remaining, Some(0));
}

#[test]
fn no_timer_means_no_poll_timeout() {
    let r = Reactor::new();
    assert_eq!(r.get_soonest_timeout(0), (None, None));
}

#[test]
fn one_shot_fires_once_and_leaves() {
    let mut r = Reactor::new();
    let t = r.set_timeout(0, 10);
    assert!(!r.dispatch_timeout(t, 5));
    assert!(r.dispatch_timeout(t, 10));
    assert!(r.empty());
}

#[test]
fn interval_fires_and_reschedules() {
    let mut r = Reactor::new();
    let t = r.set_interval(0, 10);
    assert!(r.dispatch_timeout(t, 12));
    // rescheduled at 12 + 10 = 22: not due at 20, due at 22
    assert!(!r.dispatch_timeout(t, 20));
    assert!(r.dispatch_timeout(t, 22));
    assert!(!r.empty());
    assert!(r.clear_interval(t));
    assert!(r.empty());
}

#[test]
fn timer_ordering_simulated_clock() {
    // Timeouts at +10, +20, +30 from a base instant fire exactly once each,
    // in ascending order; clearing the middle one before it is due
    // suppresses it.
    let mut r = Reactor::new();
    let t10 = r.set_timeout(0, 10);
    let t20 = r.set_timeout(0, 20);
    let t30 = r.set_timeout(0, 30);
    let mut fired = Vec::new();
    let mut now = 0u64;
    assert!(r.clear_timeout(t20));
    while now <= 40 {
        if let (Some(t), Some(remaining)) = r.get_soonest_timeout(now) {
            now += remaining;
            if r.dispatch_timeout(t, now) {
                fired.push(t);
            }
        } else {
            break;
        }
    }
    assert_eq!(fired, vec![t10, t30]);
}

#[test]
fn stop_and_start_toggle_the_loop_flag() {
    let mut r = Reactor::new();
    r.start();
    assert!(r.should_continue);
    r.stop();
    assert!(!r.should_continue);
}

#[test]
fn flush_resets_the_reactor() {
    let mut r = Reactor::new();
    let _ = r.insert_listener();
    let _ = r.set_timeout(0, 5);
    let _ = r.set_interval(0, 5);
    r.flush();
    assert!(r.empty());
    assert!(r.flush_flag);
    let t = r.insert_listener();
    assert_eq!(t, 1);
}

#[test]
fn borrow_poll_hands_out_the_poller() {
    let r = Reactor::new();
    let _poll: &mio::Poll = r.borrow_poll();
}
