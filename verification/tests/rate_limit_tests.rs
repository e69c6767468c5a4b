use pad::rate_limit::{AppStateInner, ClientIp, MAX_REQUESTS, WINDOW_NANOS};

#[test]
fn hundred_requests_per_window() {
    let mut st = AppStateInner::new();
    let ip = ClientIp::V4(0x7f000001);
    for i in 0..MAX_REQUESTS as u64 {
        assert!(st.check_rate_limit(ip, 1_000 + i));
    }
    assert!(!st.check_rate_limit(ip, 2_000));
    assert!(!st.check_rate_limit(ip, 3_000));
}

#[test]
fn budget_is_per_client() {
    let mut st = AppStateInner::new();
    let a = ClientIp::V4(1);
    let b = ClientIp::V6(1);
    for i in 0..MAX_REQUESTS as u64 {
        assert!(st.check_rate_limit(a, i));
    }
    assert!(!st.check_rate_limit(a, 500));
    assert!(st.check_rate_limit(b, 500));
}

#[test]
fn old_requests_stop_counting() {
    let mut st = AppStateInner::new();
    let ip = ClientIp::V6(42);
    for _ in 0..MAX_REQUESTS {
        assert!(st.check_rate_limit(ip, 0));
    }
    assert!(!st.check_rate_limit(ip, WINDOW_NANOS - 1));
    assert!(st.check_rate_limit(ip, WINDOW_NANOS));
}

#[test]
fn cleaning_keeps_decisions() {
    let mut a = AppStateInner::new();
    let mut b = AppStateInner::new();
    let ip = ClientIp::V4(9);
    for i in 0..MAX_REQUESTS as u64 {
        assert!(a.check_rate_limit(ip, i * 1_000_000_000));
        assert!(b.check_rate_limit(ip, i * 1_000_000_000));
    }
    let now = 120 * 1_000_000_000;
    b.clean_old_rate_limits(now);
    assert_eq!(a.check_rate_limit(ip, now), b.check_rate_limit(ip, now));
    let later = 150 * 1_000_000_000;
    assert_eq!(a.check_rate_limit(ip, later), b.check_rate_limit(ip, later));
}

#[test]
fn cleaning_drops_idle_clients() {
    let mut st = AppStateInner::new();
    let ip = ClientIp::V4(3);
    for _ in 0..MAX_REQUESTS {
        assert!(st.check_rate_limit(ip, 0));
    }
    assert!(!st.check_rate_limit(ip, 1));
    st.clean_old_rate_limits(WINDOW_NANOS * 2);
    assert!(st.check_rate_limit(ip, WINDOW_NANOS * 2));
}

#[test]
fn budget_holds_with_cleanings_between_requests() {
    let mut st = AppStateInner::new();
    let ip = ClientIp::V6(7);
    let mut allowed = 0;
    for i in 0..150u64 {
        let now = i * 100_000_000;
        if i % 10 == 0 {
            st.clean_old_rate_limits(now);
        }
        if st.check_rate_limit(ip, now) {
            allowed += 1;
        }
    }
    assert_eq!(allowed, MAX_REQUESTS);
}
