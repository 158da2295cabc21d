use resp_benchmark::conn_limiter::ConnLimiter;

#[test]
fn new_limiter_admits_up_to_its_target() {
    let mut limiter = ConnLimiter::new(5, 2);
    assert_eq!(limiter.total_conn(), 5);
    assert_eq!(limiter.get_target_conn(), 2);
    assert_eq!(limiter.get_active_conn(), 0);
    assert!(limiter.try_new_conn());
    assert!(limiter.try_new_conn());
    assert!(!limiter.try_new_conn());
    assert_eq!(limiter.get_active_conn(), 2);
    assert!(limiter.is_settled());
}

#[test]
fn add_conn_raises_the_target_up_to_the_capacity() {
    let mut limiter = ConnLimiter::new(2, 0);
    assert!(!limiter.try_new_conn());
    limiter.add_conn();
    assert_eq!(limiter.get_target_conn(), 1);
    assert!(!limiter.is_settled());
    assert!(limiter.try_new_conn());
    assert!(limiter.is_settled());
    limiter.add_conn();
    limiter.add_conn();
    limiter.add_conn();
    assert_eq!(limiter.get_target_conn(), 2);
    assert!(limiter.try_new_conn());
    assert!(!limiter.try_new_conn());
    assert_eq!(limiter.get_active_conn(), 2);
}

#[test]
fn active_never_exceeds_target_nor_target_capacity() {
    let mut limiter = ConnLimiter::new(7, 0);
    // an arbitrary interleaving of raises and admissions
    let raises = [true, false, false, true, true, false, true, true, true, false, true, true, true, false, false];
    for step in 0..60 {
        if raises[step % raises.len()] {
            limiter.add_conn();
        } else {
            limiter.try_new_conn();
        }
        assert!(limiter.get_active_conn() <= limiter.get_target_conn());
        assert!(limiter.get_target_conn() <= limiter.total_conn());
    }
    assert_eq!(limiter.get_target_conn(), 7);
}

#[test]
fn a_limiter_without_capacity_admits_nothing() {
    let mut limiter = ConnLimiter::new(0, 0);
    limiter.add_conn();
    assert_eq!(limiter.get_target_conn(), 0);
    assert!(!limiter.try_new_conn());
}
