use rustopus::{Backoff, Factor};
use std::time::Duration;

fn factor(f: f64) -> Factor {
    Factor::from_bits(f.to_bits())
}

#[test]
fn exponential_without_jitter_doubles_then_caps() {
    let b = Backoff::exponential(Duration::from_millis(100))
        .cap(Duration::from_secs(1))
        .jitter(false);
    let ms: Vec<u128> = (1..=5).map(|a| b.delay(a).as_millis()).collect();
    assert_eq!(ms, [100, 200, 400, 800, 1000]);
}

#[test]
fn jitter_stays_within_half_to_full() {
    let b = Backoff::exponential(Duration::from_millis(100)).jitter(true);
    for _ in 0..200 {
        let d = b.delay(3); // un-jittered: 400ms
        assert!(d >= Duration::from_millis(200) && d <= Duration::from_millis(400), "{d:?}");
    }
}

#[test]
fn huge_attempt_numbers_do_not_overflow() {
    let b = Backoff::exponential(Duration::from_secs(1)).jitter(false);
    assert_eq!(b.delay(u32::MAX), Duration::from_secs(30));
}

#[test]
fn constant_is_constant() {
    let b = Backoff::constant(Duration::from_millis(7));
    assert_eq!(b.delay(1), b.delay(9));
    assert_eq!(b.delay(9), Duration::from_millis(7));
}

#[test]
fn default_is_half_a_second_doubling_to_thirty() {
    let b = Backoff::default().jitter(false);
    let ms: Vec<u128> = (0..=8).map(|a| b.delay(a).as_millis()).collect();
    assert_eq!(ms, [500, 500, 1000, 2000, 4000, 8000, 16000, 30000, 30000]);
}

#[test]
fn exponential_is_capped_at_thirty_seconds_with_jitter() {
    let b = Backoff::exponential(Duration::from_secs(100));
    assert_eq!(b.delay_with(1, 0), Duration::from_secs(15));
    assert_eq!(b.delay_with(1, 1 << 52), Duration::from_millis(22_500));
    assert_eq!(b.delay_with(1, (1 << 53) - 1), Duration::from_secs(30));
}

#[test]
fn jitter_draws_differ() {
    let b = Backoff::exponential(Duration::from_secs(20));
    let first = b.delay(1);
    assert!((0..100).any(|_| b.delay(1) != first));
}

#[test]
fn fractional_factors() {
    let b = Backoff::exponential(Duration::from_millis(500)).factor(factor(1.5)).jitter(false);
    let us: Vec<u128> = (1..=5).map(|a| b.delay(a).as_micros()).collect();
    assert_eq!(us, [500_000, 750_000, 1_125_000, 1_687_500, 2_531_250]);
    let b = Backoff::exponential(Duration::from_secs(8)).factor(factor(0.5)).jitter(false);
    assert_eq!(b.delay(4), Duration::from_secs(1));
    assert_eq!(b.delay(33), Duration::from_nanos(2));
}

#[test]
fn factor_from_bits_and_whole_factor_agree() {
    let a = Backoff::exponential(Duration::from_millis(3)).factor(factor(2.0)).jitter(false);
    let b = Backoff::exponential(Duration::from_millis(3)).factor(Factor::whole(2)).jitter(false);
    for attempt in 0..60 {
        assert_eq!(a.delay(attempt), b.delay(attempt));
    }
}

#[test]
fn halfway_rounds_to_even() {
    let b = Backoff::exponential(Duration::from_nanos(1_953_125)).factor(factor(0.5)).jitter(false);
    assert_eq!(b.delay(2), Duration::from_nanos(976_562));
    let b = Backoff::exponential(Duration::from_nanos(5_859_375)).factor(factor(0.5)).jitter(false);
    assert_eq!(b.delay(2), Duration::from_nanos(2_929_688));
}

#[test]
fn odd_factors() {
    let b = |f: f64| Backoff::exponential(Duration::from_secs(1)).factor(factor(f)).jitter(false);
    // The first delay is the base, whatever the factor.
    assert_eq!(b(f64::NAN).delay(1), Duration::from_secs(1));
    assert_eq!(b(f64::NAN).delay(2), Duration::from_secs(30));
    assert_eq!(b(f64::INFINITY).delay(2), Duration::from_secs(30));
    assert_eq!(b(-2.0).delay(2), Duration::ZERO);
    assert_eq!(b(-2.0).delay(3), Duration::from_secs(4));
    assert_eq!(b(0.0).delay(2), Duration::ZERO);
    assert_eq!(b(1e300).delay(2), Duration::from_secs(30));
    assert_eq!(b(1e300).delay(3), Duration::from_secs(30));
    assert_eq!(b(-1e300).delay(2), Duration::ZERO);
    assert_eq!(b(-1e300).delay(4), Duration::from_secs(30));
    assert_eq!(b(5e-324).delay(9), Duration::ZERO);
}

/// The delay without jitter, in seconds.
fn plain(base: Duration, f: f64, cap: Duration, attempt: u32) -> f64 {
    let most = if f == 2.0 { 96 } else { 32 };
    let raw = base.as_secs_f64() * f.powi(attempt.saturating_sub(1).min(most) as i32);
    let cap = cap.as_secs_f64();
    if raw.is_finite() { raw.min(cap) } else { cap }.max(0.0)
}

/// Numbers that look random but are the same each time.
struct Numbers(u64);

impl Numbers {
    fn next(&mut self) -> u64 {
        self.0 = self.0.wrapping_add(0x9e37_79b9_7f4a_7c15);
        let z = (self.0 ^ (self.0 >> 30)).wrapping_mul(0xbf58_476d_1ce4_e5b9);
        let z = (z ^ (z >> 27)).wrapping_mul(0x94d0_49bb_1331_11eb);
        z ^ (z >> 31)
    }
}

fn agrees(base: Duration, f: f64, cap: Duration, attempt: u32, draw: u64) {
    let b = Backoff::exponential(base).factor(factor(f)).cap(cap);
    let c = plain(base, f, cap, attempt);
    let what = format!("{base:?} {f:e} {cap:?} {attempt} {draw}");
    assert_eq!(b.clone().jitter(false).delay(attempt), Duration::from_secs_f64(c), "{what}");
    let r = draw as f64 * (1.0 / (1u64 << 53) as f64);
    let secs = c / 2.0 + c / 2.0 * r;
    assert_eq!(b.delay_with(attempt, draw), Duration::from_secs_f64(secs), "{what}");
}

#[test]
fn agrees_with_double_precision() {
    let factors = [0.3, 0.9, 1.0, 1.1, 1.25, 1.5, 1.7, 2.0, 2.5, 3.0, 10.0, -1.5, -2.0, -7.0];
    let bases = [0u64, 1, 3, 7, 9, 999, 123_456_789, 500_000_000, 2_000_000_001];
    let mut numbers = Numbers(1);
    for f in factors {
        for base in bases {
            for attempt in 0..40u32 {
                let draw = numbers.next() >> 11;
                agrees(Duration::from_nanos(base), f, Duration::from_secs(3600), attempt, draw);
            }
        }
    }
}

#[test]
fn agrees_with_double_precision_on_many_numbers() {
    let mut numbers = Numbers(2);
    for i in 0..4000u32 {
        let base = Duration::from_nanos(numbers.next() >> (14 + numbers.next() % 50));
        let cap = Duration::from_nanos(numbers.next() >> (14 + numbers.next() % 30));
        let f = (numbers.next() >> 11) as f64 / (1u64 << 51) as f64;
        let f = if i % 5 == 0 { -f } else { f };
        agrees(base, f, cap, (numbers.next() % 45) as u32, numbers.next() >> 11);
    }
}

#[test]
fn agrees_with_double_precision_on_any_bits() {
    let mut numbers = Numbers(3);
    for _ in 0..2000 {
        let base = Duration::from_nanos(numbers.next() >> (14 + numbers.next() % 50));
        let f = f64::from_bits(numbers.next());
        let attempt = 1 + (numbers.next() % 40) as u32;
        agrees(base, f, Duration::from_secs(100), attempt, numbers.next() >> 11);
    }
    for f in [f64::MAX, f64::MIN, f64::MIN_POSITIVE, 5e-324, 1e10, 4294967296.0, 1.8e19] {
        for attempt in 1..36 {
            agrees(Duration::from_nanos(0), f, Duration::from_secs(9), attempt, 1);
            agrees(Duration::from_nanos(1), f, Duration::from_secs(9), attempt, 1);
            agrees(Duration::from_secs(86_400), f, Duration::from_secs(9), attempt, 0);
        }
    }
}

#[test]
fn longest_cap_is_kept() {
    let b = Backoff::exponential(Duration::MAX).cap(Duration::MAX).jitter(false);
    assert_eq!(b.delay(1), Duration::MAX);
    assert_eq!(b.delay(20), Duration::MAX);
}

#[test]
fn clone_keeps_the_settings() {
    let b = Backoff::exponential(Duration::from_millis(20)).cap(Duration::from_millis(50)).jitter(false);
    assert_eq!(b.clone().delay(2), Duration::from_millis(40));
    assert_eq!(b.clone().delay(3), Duration::from_millis(50));
}

#[test]
fn doubling_goes_on_up_to_the_cap() {
    let b = Backoff::exponential(Duration::from_nanos(1)).jitter(false);
    assert_eq!(b.delay(33), Duration::from_nanos(1 << 32));
    assert_eq!(b.delay(34), Duration::from_nanos(1 << 33));
    assert_eq!(b.delay(35), Duration::from_nanos(1 << 34));
    for attempt in [36, 40, 96, 97, 98, 99, 1026, u32::MAX - 1, u32::MAX] {
        assert_eq!(b.delay(attempt), Duration::from_secs(30), "{attempt}");
    }
    let b = b.cap(Duration::MAX);
    assert_eq!(b.delay(64), Duration::from_nanos(1 << 63));
    assert_eq!(b.delay(94).as_nanos(), 1 << 93);
    assert_eq!(b.delay(95), Duration::MAX);
    assert_eq!(b.delay(u32::MAX), Duration::MAX);
}

#[test]
fn doubling_nothing_stays_nothing() {
    for on in [false, true] {
        let b = Backoff::exponential(Duration::ZERO).jitter(on);
        for attempt in [0, 1, 33, 34, 97, 98, 5000, u32::MAX] {
            assert_eq!(b.delay(attempt), Duration::ZERO, "{attempt}");
        }
    }
}

#[test]
fn only_doubling_goes_on_after_the_33rd_retry() {
    let b = |f: f64| Backoff::exponential(Duration::from_secs(1)).factor(factor(f)).jitter(false);
    // The 32nd power is the last, and it is positive.
    assert_eq!(b(-2.0).delay(33), Duration::from_secs(30));
    assert_eq!(b(-2.0).delay(34), Duration::from_secs(30));
    assert_eq!(b(-2.0).delay(u32::MAX), Duration::from_secs(30));
    let b = Backoff::exponential(Duration::from_nanos(1)).jitter(false).cap(Duration::MAX);
    let three = b.clone().factor(factor(3.0));
    assert_eq!(three.delay(u32::MAX), three.delay(33));
    assert!(three.delay(33) > three.delay(32));
}

#[test]
fn products_are_those_of_double_precision() {
    // 9ns in seconds times 1.5 falls just below 13.5ns.
    let b = Backoff::exponential(Duration::from_nanos(9)).factor(factor(1.5)).jitter(false);
    assert_eq!(b.delay(2), Duration::from_nanos(13));
}

#[test]
fn other_factors_stop_at_the_33rd_retry() {
    let b = Backoff::exponential(Duration::from_nanos(1)).factor(factor(1.5)).jitter(false);
    assert_eq!(b.delay(33), Duration::from_nanos(431_440)); // 1.5^32 = 431439.88...
    assert_eq!(b.delay(34), b.delay(33));
    assert_eq!(b.delay(u32::MAX), b.delay(33));
    let just_below = f64::from_bits(2.0f64.to_bits() - 1);
    let b = b.factor(factor(just_below));
    assert_eq!(b.delay(40), b.delay(33));
}
