use chrono::{DateTime, Duration, Utc};
use chrono_tz::{Europe::Berlin, UTC};
use scheduler::time::{Instant, Span};
use scheduler::trigger::{Interval, Oneshot, Weekly};
use scheduler::zone::Tz;

const DEFAULT_UTC: &str = "2023-01-01T00:00:00Z";
const DST_SPRING_LOCAL: &str = "2023-03-24T01:00:00+01:00";
const DST_AUTUMN_LOCAL: &str = "2023-10-27T01:00:00+01:00";

fn instant(dt: DateTime<Utc>) -> Instant {
    Instant::from_timestamp(dt.timestamp(), dt.timestamp_subsec_nanos()).unwrap()
}

fn dt_parse(dt_str: &str) -> DateTime<Utc> {
    DateTime::parse_from_rfc3339(dt_str)
        .unwrap()
        .with_timezone(&Utc)
}

fn span(duration: std::time::Duration) -> Span {
    Span::new(duration.as_secs(), duration.subsec_nanos()).unwrap()
}

fn zone(tz: chrono_tz::Tz) -> Tz {
    Tz::from_name(tz.name()).unwrap()
}

fn instants(texts: &[&str]) -> Vec<Instant> {
    texts.iter().map(|dts| instant(dt_parse(dts))).collect()
}

#[test]
fn tests_it_works_utc() {
    let now = instant(dt_parse(DEFAULT_UTC));
    let weekly = Weekly::new(
        [false, true, true, true, true, true, true],
        span(Duration::hours(12).to_std().unwrap()),
        zone(UTC),
    );
    let ttnr: Vec<Instant> = weekly.next_runs(now, 9).unwrap();

    let expected_ttnr_utc: Vec<Instant> = instants(&[
        "2023-01-01T12:00:00Z",
        "2023-01-03T12:00:00Z",
        "2023-01-04T12:00:00Z",
        "2023-01-05T12:00:00Z",
        "2023-01-06T12:00:00Z",
        "2023-01-07T12:00:00Z",
        "2023-01-08T12:00:00Z",
        "2023-01-10T12:00:00Z",
        "2023-01-11T12:00:00Z",
    ]);
    assert_eq!(ttnr, expected_ttnr_utc);
}

#[test]
fn tests_it_works_local() {
    let now = instant(dt_parse(DEFAULT_UTC));
    let weekly = Weekly::new(
        [false, true, true, true, true, true, true],
        span(Duration::hours(12).to_std().unwrap()),
        zone(Berlin),
    );
    let ttnr: Vec<Instant> = weekly.next_runs(now, 9).unwrap();

    let expected_ttnr_local: Vec<Instant> = instants(&[
        "2023-01-01T12:00:00+01:00",
        "2023-01-03T12:00:00+01:00",
        "2023-01-04T12:00:00+01:00",
        "2023-01-05T12:00:00+01:00",
        "2023-01-06T12:00:00+01:00",
        "2023-01-07T12:00:00+01:00",
        "2023-01-08T12:00:00+01:00",
        "2023-01-10T12:00:00+01:00",
        "2023-01-11T12:00:00+01:00",
    ]);
    assert_eq!(ttnr, expected_ttnr_local);
}

#[test]
fn tests_it_works_local_dst_change_spring() {
    let now = instant(dt_parse(DST_SPRING_LOCAL));
    let weekly = Weekly::new(
        [false, true, true, true, true, true, true],
        span(Duration::hours(12).to_std().unwrap()),
        zone(Berlin),
    );
    let ttnr: Vec<Instant> = weekly.next_runs(now, 9).unwrap();

    let expected_ttnr_local: Vec<Instant> = instants(&[
        "2023-03-24T12:00:00+01:00",
        "2023-03-25T12:00:00+01:00",
        "2023-03-26T12:00:00+02:00",
        "2023-03-28T12:00:00+02:00",
        "2023-03-29T12:00:00+02:00",
        "2023-03-30T12:00:00+02:00",
        "2023-03-31T12:00:00+02:00",
        "2023-04-01T12:00:00+02:00",
        "2023-04-02T12:00:00+02:00",
    ]);
    assert_eq!(ttnr, expected_ttnr_local);
}

#[test]
fn tests_it_works_local_dst_change_autumn() {
    let now = instant(dt_parse(DST_AUTUMN_LOCAL));
    let weekly = Weekly::new(
        [false, true, true, true, true, true, true],
        span(Duration::hours(12).to_std().unwrap()),
        zone(Berlin),
    );
    let ttnr: Vec<Instant> = weekly.next_runs(now, 9).unwrap();

    let expected_ttnr_local: Vec<Instant> = instants(&[
        "2023-10-27T12:00:00+02:00",
        "2023-10-28T12:00:00+02:00",
        "2023-10-29T12:00:00+01:00",
        "2023-10-31T12:00:00+01:00",
        "2023-11-01T12:00:00+01:00",
        "2023-11-02T12:00:00+01:00",
        "2023-11-03T12:00:00+01:00",
        "2023-11-04T12:00:00+01:00",
        "2023-11-05T12:00:00+01:00",
    ]);
    assert_eq!(ttnr, expected_ttnr_local);
}

#[test]
fn tests_no_runs() {
    let now = instant(dt_parse(DEFAULT_UTC));
    let weekly = Weekly::new(
        [false, false, false, false, false, false, false],
        span(Duration::hours(12).to_std().unwrap()),
        zone(UTC),
    );
    let ttnr = weekly.next_runs(now, 9);

    assert_eq!(ttnr, None);
}

#[test]
fn tests_oneshot_future() {
    let now = instant(dt_parse(DEFAULT_UTC));
    let run_time = dt_parse(DEFAULT_UTC) + Duration::hours(1);
    let oneshot = Oneshot::new(instant(run_time));
    let next_runs: Vec<Instant> = oneshot.next_runs(now, 1).unwrap();

    assert_eq!(next_runs.len(), 1);
    assert_eq!(next_runs[0], instant(run_time));
}

#[test]
fn tests_oneshot_past() {
    let now = instant(dt_parse(DEFAULT_UTC));
    let run_time = dt_parse(DEFAULT_UTC) - Duration::hours(1);
    let oneshot = Oneshot::new(instant(run_time));
    let next_runs = oneshot.next_runs(now, 1);

    assert_eq!(next_runs, None);
}

#[test]
fn tests_interval() {
    let now = instant(dt_parse(DEFAULT_UTC));
    let interval = Interval::new(span(Duration::seconds(1).to_std().unwrap()));
    let next_runs = interval.next_runs(now, 5).unwrap();

    let expected_next_runs: Vec<Instant> = instants(&[
        "2023-01-01T00:00:01Z",
        "2023-01-01T00:00:02Z",
        "2023-01-01T00:00:03Z",
        "2023-01-01T00:00:04Z",
        "2023-01-01T00:00:05Z",
    ]);

    assert_eq!(next_runs, expected_next_runs)
}

#[test]
fn tests_interval_from_json() {
    let interval = Interval::new(span(Duration::seconds(1).to_std().unwrap()));
    let j = interval.hash();

    let written: serde_json::Value = serde_json::from_str(&j).unwrap();
    let expected: serde_json::Value = serde_json::from_str(
        r#"{
            "interval": {"secs":1,"nanos":0},
            "last_run": null
        }"#,
    )
    .unwrap();
    assert_eq!(written, expected);
}
