use rinko::schedule::{next_amsat_trigger, next_cleanup_trigger, next_fixed_trigger, Backoff, RetryPolicy, RetryStep};

// 2026-02-18T10:00:00Z
const TEN: i64 = 1771408800;

#[test]
fn amsat_trigger_alignment() {
    // minute 50: next hour, minute 02, second 00
    assert_eq!(next_amsat_trigger(TEN + 50 * 60 + 17), TEN + 3600 + 2 * 60);
    // minute 0: minute 02 of this hour
    assert_eq!(next_amsat_trigger(TEN), TEN + 2 * 60);
    assert_eq!(next_amsat_trigger(TEN + 2 * 60), TEN + 17 * 60);
    assert_eq!(next_amsat_trigger(TEN + 31 * 60 + 59), TEN + 32 * 60);
    assert_eq!(next_amsat_trigger(TEN + 47 * 60), TEN + 3600 + 2 * 60);
}

#[test]
fn amsat_trigger_wraps_midnight() {
    // 2026-02-18T23:55:00Z
    let late = TEN + 13 * 3600 + 55 * 60;
    assert_eq!(next_amsat_trigger(late), TEN + 14 * 3600 + 2 * 60);
}

#[test]
fn test_calculate_next_cleanup_time() {
    let midnight = TEN - 10 * 3600;
    assert_eq!(next_cleanup_trigger(midnight + 3600), midnight + 3 * 3600);
    assert_eq!(next_cleanup_trigger(midnight + 3 * 3600), midnight + 86400 + 3 * 3600);
    assert_eq!(next_cleanup_trigger(TEN), midnight + 86400 + 3 * 3600);
}

#[test]
fn fixed_period() {
    assert_eq!(next_fixed_trigger(TEN, 10), TEN + 600);
}

#[test]
fn retry_policies() {
    let p = RetryPolicy::amsat_update();
    assert_eq!(p.after_failure(1), RetryStep::RetryAfter(60));
    assert_eq!(p.after_failure(2), RetryStep::RetryAfter(60));
    assert_eq!(p.after_failure(3), RetryStep::GiveUp);
    let f = RetryPolicy::amsat_fetch();
    assert_eq!(f.backoff, Backoff::PerAttempt(2));
    assert_eq!(f.after_failure(1), RetryStep::RetryAfter(4));
    assert_eq!(f.after_failure(2), RetryStep::RetryAfter(6));
    assert_eq!(f.after_failure(3), RetryStep::GiveUp);
    assert_eq!(RetryPolicy::single().after_failure(1), RetryStep::GiveUp);
}
