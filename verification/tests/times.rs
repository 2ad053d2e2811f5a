use chrono::{DateTime, Local};
use std::time::{Duration, UNIX_EPOCH};
use tunes::time::{fmt_created, fmt_duration, TimeSpan, Timestamp};

fn secs(n: u64) -> TimeSpan {
    TimeSpan::new(n, 0)
}

fn parts(d: TimeSpan) -> (u64, u32) {
    (d.secs(), d.subsec_nanos())
}

#[test]
fn durations_below_an_hour() {
    assert_eq!(fmt_duration(secs(0)), "0:00");
    assert_eq!(fmt_duration(secs(9)), "0:09");
    assert_eq!(fmt_duration(secs(60)), "1:00");
    assert_eq!(fmt_duration(secs(754)), "12:34");
    assert_eq!(fmt_duration(TimeSpan::new(3599, 999_999_999)), "59:59");
}

#[test]
fn durations_from_an_hour_on() {
    assert_eq!(fmt_duration(secs(3600)), "1:00:00");
    assert_eq!(fmt_duration(secs(3725)), "1:02:05");
    assert_eq!(fmt_duration(secs(36_000 + 59 * 60 + 9)), "10:59:09");
    assert_eq!(fmt_duration(secs(u64::MAX)), "5124095576030431:00:15");
}

#[test]
fn duration_text_tells_the_seconds() {
    let mut seen: Vec<String> = Vec::new();
    for n in [0u64, 1, 59, 60, 61, 599, 600, 3599, 3600, 3660, 36_000, 360_000] {
        let text = fmt_duration(secs(n));
        assert!(!seen.contains(&text));
        seen.push(text);
    }
}

#[test]
fn spans_add_and_subtract_as_in_std() {
    let samples = [
        Duration::new(0, 0),
        Duration::new(0, 1),
        Duration::new(0, 999_999_999),
        Duration::new(1, 0),
        Duration::new(5, 500_000_000),
        Duration::new(30, 600_000_000),
        Duration::new(u64::MAX, 0),
        Duration::MAX,
    ];
    for a in samples {
        for b in samples {
            let x = TimeSpan::new(a.as_secs(), a.subsec_nanos());
            let y = TimeSpan::new(b.as_secs(), b.subsec_nanos());
            let sum = a.saturating_add(b);
            let difference = a.saturating_sub(b);
            assert_eq!(parts(x.saturating_add(&y)), (sum.as_secs(), sum.subsec_nanos()));
            assert_eq!(
                parts(x.saturating_sub(&y)),
                (difference.as_secs(), difference.subsec_nanos())
            );
            assert_eq!(x.longer_than(&y), a > b);
            assert_eq!(x.is_zero(), a.is_zero());
        }
    }
}

#[test]
fn unknown_moment_is_a_dash() {
    assert_eq!(fmt_created(None), "-");
}

#[test]
fn moment_is_written_by_the_local_clock() {
    for (s, n) in [(0u64, 0u32), (951_782_399, 7), (1_735_689_599, 999_999_999)] {
        let t = UNIX_EPOCH + Duration::new(s, n);
        let expected = DateTime::<Local>::from(t).format("%Y-%m-%d %H:%M").to_string();
        let text = fmt_created(Timestamp::new(s as i64, n));
        assert_eq!(text, expected);
        assert_eq!(text.len(), 16);
    }
}

#[test]
fn moment_before_1970_is_written_too() {
    let t = UNIX_EPOCH - Duration::new(86_400 * 365, 0);
    let expected = DateTime::<Local>::from(t).format("%Y-%m-%d %H:%M").to_string();
    assert_eq!(fmt_created(Timestamp::new(-86_400 * 365, 0)), expected);
}

#[test]
fn calendar_has_its_bounds() {
    assert!(Timestamp::new(-8_334_601_228_801, 0).is_none());
    assert!(Timestamp::new(8_210_266_876_800, 0).is_none());
    assert!(Timestamp::new(0, 1_000_000_000).is_none());
    assert!(fmt_created(Timestamp::new(-8_334_601_228_800, 0)).starts_with("-26214"));
    assert!(fmt_created(Timestamp::new(8_210_266_876_799, 999_999_999)).starts_with("+26214"));
}
