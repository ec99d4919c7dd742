//! The token buckets.

use hazshield_ingest::ieee::Single;
use hazshield_ingest::limiter::{shard_of, RateLimiter};

const SECOND: u64 = 1_000_000_000;

fn hz(rate: f32) -> Single {
    Single { bits: rate.to_bits() }
}

#[test]
fn a_burst_is_five_seconds_of_the_declared_rate() {
    let mut limiter = RateLimiter::new();
    let allowed = (0..80).filter(|_| limiter.allow(7, hz(10.0), SECOND)).count();
    assert_eq!(allowed, 50);
}

#[test]
fn a_slow_sensor_has_five_seconds_of_its_rate_too() {
    let mut limiter = RateLimiter::new();
    let results: Vec<bool> = (0..3).map(|_| limiter.allow(1, hz(0.5), SECOND)).collect();
    assert_eq!(results, vec![true, true, false]);
    for (rate, burst) in [(0.2f32, 1), (0.39, 1), (0.4, 2), (1.0, 5), (1.5, 7)] {
        let mut limiter = RateLimiter::new();
        let allowed = (0..20).filter(|_| limiter.allow(1, hz(rate), SECOND)).count();
        assert_eq!(allowed, burst, "{rate}");
    }
}

#[test]
fn below_a_fifth_of_a_hertz_nothing_is_stored() {
    for rate in [0.0f32, -0.0, 1e-30, 0.1, 0.19999] {
        let mut limiter = RateLimiter::new();
        for day in 0..10u64 {
            assert!(!limiter.allow(1, hz(rate), day * 86_400 * SECOND), "{rate}");
        }
    }
}

#[test]
fn what_is_no_rate_has_five_tokens_and_one_a_second() {
    for rate in [-3.0f32, -1e-40, f32::NAN, -f32::NAN, f32::NEG_INFINITY] {
        let mut limiter = RateLimiter::new();
        let allowed = (0..20).filter(|_| limiter.allow(1, hz(rate), SECOND)).count();
        assert_eq!(allowed, 5, "{rate}");
        assert!(!limiter.allow(1, hz(rate), SECOND + SECOND / 2));
        assert!(limiter.allow(1, hz(rate), 2 * SECOND));
    }
}

#[test]
fn a_sensor_that_keeps_its_rate_is_never_refused() {
    for (rate, gap) in [(0.25f32, 4 * SECOND), (1.0, SECOND), (8.0, SECOND / 8), (1e3, 1_000_000)] {
        let mut limiter = RateLimiter::new();
        for i in 0..5_000u64 {
            assert!(limiter.allow(1, hz(rate), i * gap), "{rate} {i}");
        }
    }
}

#[test]
fn a_bucket_refills_at_twice_the_declared_rate() {
    let mut limiter = RateLimiter::new();
    while limiter.allow(1, hz(1.0), SECOND) {}
    assert!(!limiter.allow(1, hz(1.0), SECOND + SECOND / 4));
    assert!(limiter.allow(1, hz(1.0), SECOND + SECOND / 2));
    assert!(!limiter.allow(1, hz(1.0), SECOND + SECOND / 2));
}

#[test]
fn a_rest_never_overfills_a_bucket() {
    let mut limiter = RateLimiter::new();
    while limiter.allow(1, hz(1.0), SECOND) {}
    let later = 3_600 * SECOND;
    let allowed = (0..20).filter(|_| limiter.allow(1, hz(1.0), later)).count();
    assert_eq!(allowed, 5);
}

#[test]
fn sensors_do_not_share_a_bucket() {
    let mut limiter = RateLimiter::new();
    while limiter.allow(1, hz(1.0), SECOND) {}
    assert!(limiter.allow(2, hz(1.0), SECOND));
    assert!(!limiter.allow(1, hz(1.0), SECOND));
}

#[test]
fn a_clock_that_runs_backwards_refills_nothing() {
    let mut limiter = RateLimiter::new();
    while limiter.allow(1, hz(1.0), 10 * SECOND) {}
    assert!(!limiter.allow(1, hz(1.0), 9 * SECOND));
}

#[test]
fn an_infinite_rate_is_never_refused() {
    let mut limiter = RateLimiter::new();
    for i in 0..1_000u64 {
        assert!(limiter.allow(1, hz(f32::INFINITY), i / 3));
    }
}

/// The bucket in the machine's own arithmetic.
struct Bucket {
    tokens: f64,
    last: u64,
}

fn allowed_by(bucket: &mut Option<Bucket>, declared_hz: f32, now: u64) -> bool {
    let rate = declared_hz as f64 * 2.0;
    let burst = declared_hz as f64 * 5.0;
    let b = bucket.get_or_insert(Bucket { tokens: burst, last: now });
    let elapsed = std::time::Duration::from_nanos(now.saturating_sub(b.last)).as_secs_f64();
    b.tokens = (b.tokens + elapsed * rate).min(burst);
    b.last = now;
    if b.tokens >= 1.0 {
        b.tokens -= 1.0;
        true
    } else {
        false
    }
}

#[test]
fn every_decision_is_that_of_double_precision_arithmetic() {
    for rate in [0.1f32, 0.21, 0.5, 1.0, 3.7, 10.0, 123.456, f32::MAX] {
        let mut limiter = RateLimiter::new();
        let mut bucket: Option<Bucket> = None;
        let mut now: u64 = 17;
        let mut state: u64 = 42;
        for _ in 0..3_000 {
            state = state.wrapping_mul(6364136223846793005).wrapping_add(1442695040888963407);
            now += (state >> 33) % (SECOND / 2);
            assert_eq!(
                limiter.allow(9, hz(rate), now),
                allowed_by(&mut bucket, rate, now),
                "{rate} at {now}"
            );
        }
    }
}

#[test]
fn storage_over_a_flood_is_bounded_by_burst_and_refill() {
    let mut limiter = RateLimiter::new();
    // A sensor declared at 1 Hz screams at 100 Hz for a minute.
    let stored = (0..6_000u64).filter(|i| limiter.allow(1, hz(1.0), i * SECOND / 100)).count();
    assert!((123..=125).contains(&stored), "{stored}");
}

#[test]
fn on_the_second_the_budget_is_kept_to_the_last_reading() {
    for rate in [1u64, 2, 10] {
        let mut limiter = RateLimiter::new();
        for second in 0..30u64 {
            let asked = 3 * rate;
            let got = (0..asked).filter(|_| limiter.allow(1, hz(rate as f32), second * SECOND));
            let expected = match second {
                0 => 3 * rate,
                // What is left of the burst of five seconds goes first.
                1 => 3 * rate,
                2 => 3 * rate,
                _ => 2 * rate,
            };
            assert_eq!(got.count() as u64, expected, "{rate} {second}");
        }
    }
}

#[test]
fn a_sensor_always_meets_the_same_shard() {
    assert_eq!(shard_of(130, 64), 2);
    assert_eq!(shard_of(u128::MAX, 64), 63);
    assert_eq!(shard_of(u128::MAX, 1), 0);
}
