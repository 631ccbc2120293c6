use workout_routes::error::RunError;
use workout_routes::instant::{read_instant, Instant};
use workout_routes::track::{Reading, Track, TrackPoint};

fn still(time: &str) -> TrackPoint {
    let zero = Reading { bits: 0 };
    TrackPoint {
        lon: zero,
        lat: zero,
        ele: zero,
        time: time.to_string(),
        speed: zero,
        course: zero,
        h_acc: zero,
        v_acc: zero,
    }
}

fn track_of_times(times: &[&str]) -> Track {
    Track {
        name: "t".to_string(),
        start_time: "2024-01-01T00:00:00Z".to_string(),
        points: times.iter().map(|t| still(t)).collect(),
    }
}

#[test]
fn reads_utc_timestamp() {
    assert_eq!(
        read_instant("2024-01-01T06:00:00Z"),
        Ok(Instant { secs: 1704088800, nanos: 0 })
    );
}

#[test]
fn reads_the_epoch() {
    assert_eq!(read_instant("1970-01-01T00:00:00Z"), Ok(Instant { secs: 0, nanos: 0 }));
}

#[test]
fn reads_time_before_the_epoch() {
    assert_eq!(
        read_instant("1969-12-31T23:59:59.5Z"),
        Ok(Instant { secs: -1, nanos: 500_000_000 })
    );
}

#[test]
fn offset_is_taken_off() {
    assert_eq!(
        read_instant("2024-01-01T08:00:00+02:00"),
        Ok(Instant { secs: 1704088800, nanos: 0 })
    );
    assert_eq!(
        read_instant("2024-01-01T01:00:00-05:00"),
        Ok(Instant { secs: 1704088800, nanos: 0 })
    );
}

#[test]
fn fraction_becomes_nanoseconds() {
    assert_eq!(
        read_instant("2024-01-01T06:00:00.25Z"),
        Ok(Instant { secs: 1704088800, nanos: 250_000_000 })
    );
    assert_eq!(
        read_instant("2024-01-01T06:00:00.000000001Z"),
        Ok(Instant { secs: 1704088800, nanos: 1 })
    );
}

#[test]
fn leap_second_runs_past_a_full_second() {
    assert_eq!(
        read_instant("2016-12-31T23:59:60Z"),
        Ok(Instant { secs: 1483228799, nanos: 1_000_000_000 })
    );
}

#[test]
fn space_and_lower_case_are_read() {
    assert_eq!(
        read_instant("2024-01-01 06:00:00z"),
        Ok(Instant { secs: 1704088800, nanos: 0 })
    );
}

#[test]
fn text_that_is_no_timestamp_is_refused() {
    assert_eq!(read_instant(""), Err(RunError::TimestampFormat));
    assert_eq!(read_instant("yesterday"), Err(RunError::TimestampFormat));
    assert_eq!(read_instant("2024-01-01"), Err(RunError::TimestampFormat));
    assert_eq!(read_instant("2024-01-01T06:00:00"), Err(RunError::TimestampFormat));
    assert_eq!(read_instant("2024-13-01T06:00:00Z"), Err(RunError::TimestampFormat));
    assert_eq!(read_instant("2024-01-01T06:00:00Z "), Err(RunError::TimestampFormat));
    assert_eq!(read_instant("2024-01-01T24:00:00Z"), Err(RunError::TimestampFormat));
}

#[test]
fn reading_is_repeatable() {
    let text = "2023-07-09T17:45:12.125+01:00";
    assert_eq!(read_instant(text), read_instant(text));
    assert!(read_instant(text).is_ok());
}

#[test]
fn is_before_compares_seconds_first() {
    let a = Instant { secs: 5, nanos: 900 };
    let b = Instant { secs: 6, nanos: 0 };
    assert!(a.is_before(&b));
    assert!(!b.is_before(&a));
}

#[test]
fn is_before_compares_nanoseconds_second() {
    let a = Instant { secs: 5, nanos: 1 };
    let b = Instant { secs: 5, nanos: 2 };
    assert!(a.is_before(&b));
    assert!(!b.is_before(&a));
    assert!(!a.is_before(&a));
}

#[test]
fn is_before_with_negative_seconds() {
    let a = Instant { secs: -2, nanos: 999_999_999 };
    let b = Instant { secs: -1, nanos: 0 };
    assert!(a.is_before(&b));
    assert!(!b.is_before(&a));
}

#[test]
fn leap_second_lies_after_the_second_before() {
    let last = read_instant("2016-12-31T23:59:59.999999999Z").unwrap();
    let leap = read_instant("2016-12-31T23:59:60Z").unwrap();
    let next = read_instant("2017-01-01T00:00:00Z").unwrap();
    assert!(last.is_before(&leap));
    assert!(leap.is_before(&next));
}

#[test]
fn start_is_the_first_point() {
    let track = track_of_times(&["2024-01-01T06:00:00Z", "2024-01-01T06:00:01Z"]);
    assert_eq!(track.start_instant(), Ok(Instant { secs: 1704088800, nanos: 0 }));
    assert_eq!(track.point_count(), 2);
}

#[test]
fn start_ignores_the_session_timestamp() {
    let mut track = track_of_times(&["2024-01-01T06:00:00Z"]);
    track.start_time = "no timestamp".to_string();
    assert_eq!(track.start_instant(), Ok(Instant { secs: 1704088800, nanos: 0 }));
}

#[test]
fn start_ignores_later_points() {
    let track = track_of_times(&["2024-01-01T06:00:00Z", "later"]);
    assert_eq!(track.start_instant(), Ok(Instant { secs: 1704088800, nanos: 0 }));
}

#[test]
fn track_without_points_has_no_start() {
    let track = track_of_times(&[]);
    assert_eq!(track.point_count(), 0);
    assert_eq!(track.start_instant(), Err(RunError::EmptyTrack));
}

#[test]
fn track_with_unreadable_first_timestamp_has_no_start() {
    let track = track_of_times(&["06:00", "2024-01-01T06:00:01Z"]);
    assert_eq!(track.start_instant(), Err(RunError::TimestampFormat));
}
