//! Token-bucket behaviour, driven with a simulated millisecond clock.

use trojan_x::limiter::{Limiter, Rate, INTERVAL_MS};

const MIB: u64 = 1048576;

#[test]
fn unlimited_rate_admits_everything() {
    let mut l = Limiter::new(Rate::Unlimited, 0);
    let before = l;
    assert_eq!(l.consume(0, 0), 0);
    assert_eq!(l.consume(usize::MAX, 5), 0);
    assert_eq!(l.consume(123456789, 1000000), 0);
    // The bucket was never touched.
    assert_eq!(l, before);
}

#[test]
fn set_rate_unlimited_overrides_deficit() {
    let mut l = Limiter::new(Rate::Limited(1000), 0);
    // Run the bucket deep into deficit.
    let d = l.consume(100000, 0);
    assert!(d > 0);
    // Switching to unlimited makes the very next consume free.
    l.set_speed_limit(Rate::Unlimited);
    assert_eq!(l.consume(100000, 1), 0);
    // And switching back restores the stored deficit.
    l.set_speed_limit(Rate::Limited(1000));
    assert!(l.consume(0, 1) > 0);
}

#[test]
fn refill_is_capped_at_one_interval() {
    let mut l = Limiter::new(Rate::Limited(1000), 0);
    // A very long idle time still leaves at most 200 ms worth of burst:
    // capacity 200 bytes at 1000 B/s.
    assert_eq!(l.consume(199, 3600000), 0, "within one capacity is admitted...");
    let d = l.consume(1, 3600000);
    assert!(d > 0, "...and the bucket is then spent");
}

#[test]
fn window_admission_bounded() {
    // Rate 1000 B/s, so capacity is 200 bytes; over a one-second window the
    // zero-delay admissions stay under 1200 bytes.
    let mut l = Limiter::new(Rate::Limited(1000), 0);
    let mut admitted: u64 = 0;
    let mut t: u64 = 0;
    while t <= 1000 {
        if l.consume(40, t) == 0 {
            admitted += 40;
        }
        t += 50;
    }
    assert!(admitted <= 1200, "admitted {admitted} over one second");
    assert!(admitted >= 200, "the bucket should admit at least its capacity");
}

#[test]
fn delay_accounts_for_deficit() {
    let mut l = Limiter::new(Rate::Limited(1000), 0);
    // Empty bucket, consume 500 bytes: deficit 500 -> 200 + 500 ms.
    let d = l.consume(500, 0);
    assert_eq!(d, INTERVAL_MS + 500);
}

#[test]
fn ten_mib_at_one_mib_per_second_takes_about_ten_seconds() {
    let mut l = Limiter::new(Rate::Limited(MIB), 0);
    let d = l.consume((10 * MIB) as usize, 0);
    // 200 ms interval plus the time to earn the deficit back at 1 MiB/s:
    // the bucket started empty, so the pause covers the full 10 MiB.
    assert!(d >= 9000 && d <= 11000, "pause was {d} ms");
    assert_eq!(d, INTERVAL_MS + 10000);
}
