use latchkey::limiter::RateLimiter;

#[test]
fn burst_at_boundary_is_held_to_limit() {
    let mut rl = RateLimiter::new(3);
    assert!(rl.try_admit("p", 0));
    assert!(rl.try_admit("p", 59_000));
    assert!(rl.try_admit("p", 59_500));
    assert!(!rl.try_admit("p", 59_999));
    assert_eq!(rl.window_len("p"), 3);
    assert!(rl.try_admit("p", 60_000));
    assert_eq!(rl.window_len("p"), 3);
    assert!(!rl.try_admit("p", 60_001));
}

#[test]
fn idle_window_empties() {
    let mut rl = RateLimiter::new(2);
    assert!(rl.try_admit("p", 10));
    assert!(rl.try_admit("p", 20));
    assert!(!rl.try_admit("p", 30));
    assert!(rl.try_admit("p", 60_020));
    assert_eq!(rl.window_len("p"), 1);
}

#[test]
fn zero_limit_admits_nothing() {
    let mut rl = RateLimiter::new(0);
    assert!(!rl.try_admit("p", 0));
    assert!(!rl.try_admit("p", 120_000));
    assert_eq!(rl.window_len("p"), 0);
    assert_eq!(rl.limit_per_window(), 0);
}

#[test]
fn admissions_grow_window() {
    let mut rl = RateLimiter::new(5);
    for (i, t) in [100u64, 200, 300, 400].iter().enumerate() {
        assert!(rl.try_admit("p", *t));
        assert_eq!(rl.window_len("p"), i + 1);
    }
    assert_eq!(rl.window_len("q"), 0);
}
