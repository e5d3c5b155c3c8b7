use scheduler::increment;
use scheduler::text::precedes;
use scheduler::time::{waits_until, Instant, Span};
use scheduler::zone::{LocalTime, Tz};

fn at(secs: i64, nanos: u32) -> Instant {
    Instant::from_timestamp(secs, nanos).unwrap()
}

#[test]
fn increment_adds_one() {
    assert_eq!(increment(0), 1);
    assert_eq!(increment(41), 42);
    assert_eq!(increment(u32::MAX - 1), u32::MAX);
}

#[test]
fn instant_keeps_seconds_and_nanos() {
    let t = at(1_672_531_200, 123_456_789);
    assert_eq!(t.timestamp(), 1_672_531_200);
    assert_eq!(t.timestamp_subsec_nanos(), 123_456_789);
    assert_eq!(t.to_nanos(), 1_672_531_200_123_456_789);
}

#[test]
fn instant_before_the_epoch_counts_nanos_forward() {
    let t = at(-2, 250_000_000);
    assert_eq!(t.to_nanos(), -1_750_000_000);
    assert_eq!(Instant::from_nanos(-1_750_000_000), Some(t));
    assert_eq!(Instant::from_nanos(-1), Some(at(-1, 999_999_999)));
    assert_eq!(Instant::from_nanos(0), Some(at(0, 0)));
}

#[test]
fn instant_range_is_that_of_the_calendar() {
    let first = chrono::DateTime::<chrono::Utc>::MIN_UTC;
    let last = chrono::DateTime::<chrono::Utc>::MAX_UTC;
    assert_eq!(first.timestamp(), scheduler::time::MIN_SECS);
    assert_eq!(last.timestamp(), scheduler::time::MAX_SECS);
    assert!(Instant::from_timestamp(first.timestamp(), 0).is_some());
    assert!(Instant::from_timestamp(first.timestamp() - 1, 0).is_none());
    assert!(Instant::from_timestamp(last.timestamp(), 999_999_999).is_some());
    assert!(Instant::from_timestamp(last.timestamp() + 1, 0).is_none());
    assert!(Instant::from_timestamp(0, 1_000_000_000).is_none());
    assert_eq!(
        Instant::from_nanos(scheduler::time::MIN_NANOS).map(|t| t.timestamp()),
        Some(first.timestamp())
    );
    assert!(Instant::from_nanos(scheduler::time::MIN_NANOS - 1).is_none());
    assert_eq!(
        Instant::from_nanos(scheduler::time::MAX_NANOS),
        Some(at(last.timestamp(), 999_999_999))
    );
    assert!(Instant::from_nanos(scheduler::time::MAX_NANOS + 1).is_none());
}

#[test]
fn instant_order_is_the_order_of_time() {
    let a = at(10, 999_999_999);
    let b = at(11, 0);
    assert!(a.is_before(&b));
    assert!(!b.is_before(&a));
    assert!(!a.is_before(&a));
    assert!(a < b);
    assert!(at(-1, 5) < at(0, 0));
}

#[test]
fn saturating_since_clamps_a_wait_in_the_past() {
    let a = at(10, 500_000_000);
    let b = at(12, 250_000_000);
    assert_eq!(b.saturating_since(&a), Span::new(1, 750_000_000).unwrap());
    assert_eq!(a.saturating_since(&b), Span::from_secs(0));
    assert_eq!(a.saturating_since(&a), Span::from_secs(0));
}

#[test]
fn rfc3339_is_what_chrono_writes() {
    assert_eq!(at(1, 0).to_rfc3339(), "1970-01-01T00:00:01Z");
    assert_eq!(at(1, 500_000_000).to_rfc3339(), "1970-01-01T00:00:01.500Z");
    assert_eq!(at(1, 1_000).to_rfc3339(), "1970-01-01T00:00:01.000001Z");
    assert_eq!(at(1, 1).to_rfc3339(), "1970-01-01T00:00:01.000000001Z");
    assert_eq!(at(1_672_531_200, 0).to_rfc3339(), "2023-01-01T00:00:00Z");
    assert_eq!(at(-1, 0).to_rfc3339(), "1969-12-31T23:59:59Z");
    let first = Instant::from_nanos(scheduler::time::MIN_NANOS).unwrap();
    assert_eq!(first.to_rfc3339(), "-262143-01-01T00:00:00Z");
    let last = Instant::from_nanos(scheduler::time::MAX_NANOS).unwrap();
    assert_eq!(last.to_rfc3339(), "+262142-12-31T23:59:59.999999999Z");
}

#[test]
fn span_carries_nanos_into_seconds() {
    let s = Span::new(1, 2_500_000_000).unwrap();
    assert_eq!(s.as_secs(), 3);
    assert_eq!(s.subsec_nanos(), 500_000_000);
    assert_eq!(s.to_nanos(), 3_500_000_000);
    assert_eq!(Span::new(u64::MAX, 999_999_999).map(|s| s.as_secs()), Some(u64::MAX));
    assert!(Span::new(u64::MAX, 1_000_000_000).is_none());
    assert_eq!(Span::from_secs(60).to_nanos(), 60_000_000_000);
    assert_eq!(Span::from_nanos(1_500_000_000), Span::new(1, 500_000_000));
    assert_eq!(
        Span::from_nanos(scheduler::time::MAX_SPAN_NANOS).map(|s| (s.as_secs(), s.subsec_nanos())),
        Some((u64::MAX, 999_999_999))
    );
    assert!(Span::from_nanos(scheduler::time::MAX_SPAN_NANOS + 1).is_none());
}

#[test]
fn waits_are_measured_from_now() {
    let now = at(100, 0);
    let waits = waits_until(
        &now,
        Some(vec![at(99, 0), at(100, 0), at(101, 500_000_000), at(160, 0)]),
    );
    assert_eq!(
        waits,
        Some(vec![
            Span::from_secs(0),
            Span::from_secs(0),
            Span::new(1, 500_000_000).unwrap(),
            Span::from_secs(60)
        ])
    );
    assert_eq!(waits_until(&now, None), None);
    assert_eq!(waits_until(&now, Some(vec![])), Some(vec![]));
}

#[test]
fn zone_is_found_by_its_exact_name() {
    assert_eq!(Tz::from_name("Europe/Berlin").unwrap().name(), "Europe/Berlin");
    assert_eq!(Tz::from_name("UTC").unwrap().name(), "UTC");
    assert!(Tz::from_name("europe/berlin").is_none());
    assert!(Tz::from_name("Europe/Atlantis").is_none());
    assert!(Tz::from_name("").is_none());
    let berlin = Tz::from_name("Europe/Berlin").unwrap();
    assert_eq!(berlin.clone().name(), "Europe/Berlin");
}

#[test]
fn zone_offset_follows_daylight_saving() {
    let berlin = Tz::from_name("Europe/Berlin").unwrap();
    // 2023-01-01T00:00:00Z and 2023-07-01T00:00:00Z
    assert_eq!(berlin.offset_at(&at(1_672_531_200, 0)), 3_600);
    assert_eq!(berlin.offset_at(&at(1_688_169_600, 0)), 7_200);
    // the last second of winter time, and the first of summer time
    assert_eq!(berlin.offset_at(&at(1_679_792_399, 999_999_999)), 3_600);
    assert_eq!(berlin.offset_at(&at(1_679_792_400, 0)), 7_200);
    let utc = Tz::from_name("UTC").unwrap();
    assert_eq!(utc.offset_at(&at(1_688_169_600, 0)), 0);
    let new_york = Tz::from_name("America/New_York").unwrap();
    assert_eq!(new_york.offset_at(&at(1_672_531_200, 0)), -18_000);
}

#[test]
fn zone_resolves_gaps_and_folds() {
    let berlin = Tz::from_name("Europe/Berlin").unwrap();
    // 2023-03-26 on the wall clock: 01:59:59 is there, 02:00:00 to 02:59:59 are not
    let midnight_spring: i64 = 1_679_788_800;
    assert_eq!(
        berlin.resolve_local(midnight_spring + 7_199),
        Some(LocalTime::Single(3_600))
    );
    assert_eq!(berlin.resolve_local(midnight_spring + 7_200), Some(LocalTime::Gap));
    assert_eq!(berlin.resolve_local(midnight_spring + 9_000), Some(LocalTime::Gap));
    assert_eq!(
        berlin.resolve_local(midnight_spring + 10_800),
        Some(LocalTime::Single(7_200))
    );
    // 2023-10-29 on the wall clock: 02:00:00 to 02:59:59 come twice
    let midnight_autumn: i64 = 1_698_537_600;
    assert_eq!(
        berlin.resolve_local(midnight_autumn + 7_199),
        Some(LocalTime::Single(7_200))
    );
    assert_eq!(
        berlin.resolve_local(midnight_autumn + 9_000),
        Some(LocalTime::Fold(7_200, 3_600))
    );
    assert_eq!(
        berlin.resolve_local(midnight_autumn + 10_800),
        Some(LocalTime::Single(3_600))
    );
    assert_eq!(berlin.resolve_local(scheduler::time::MAX_SECS + 1), None);
    assert_eq!(berlin.resolve_local(scheduler::time::MIN_SECS - 1), None);
    assert!(berlin.resolve_local(scheduler::time::MAX_SECS).is_some());
    assert!(berlin.resolve_local(scheduler::time::MIN_SECS).is_some());
}

#[test]
fn text_order_is_the_order_of_strings() {
    let samples = [
        "",
        "a",
        "ab",
        "abc",
        "abd",
        "b",
        "{\"datetime\":\"1970-01-01T00:00:01Z\"}",
        "{\"interval\":{\"secs\":1,\"nanos\":0},\"last_run\":null}",
        "{\"weekdays\":[true],\"tz\":\"UTC\"}",
        "é",
        "z",
        "Z",
        "10",
        "9",
    ];
    for a in samples.iter() {
        for b in samples.iter() {
            assert_eq!(precedes(a, b), a < b, "{:?} before {:?}", a, b);
        }
    }
}

#[test]
fn zones_are_ordered_by_their_names() {
    let berlin = Tz::from_name("Europe/Berlin").unwrap();
    let paris = Tz::from_name("Europe/Paris").unwrap();
    let utc = Tz::from_name("UTC").unwrap();
    assert!(berlin == berlin.clone());
    assert!(berlin != paris);
    assert!(berlin < paris);
    assert!(paris < utc);
    assert!(!(utc < berlin));
    assert_eq!(berlin.partial_cmp(&berlin), Some(std::cmp::Ordering::Equal));
    assert_eq!(utc.partial_cmp(&berlin), Some(std::cmp::Ordering::Greater));
    assert_eq!(berlin.partial_cmp(&utc), Some(std::cmp::Ordering::Less));
}
