use workout_routes::error::RunError;
use workout_routes::instant::Instant;
use workout_routes::order::{place, sort_dated, Dated};
use workout_routes::schedule::{date_tracks, order_tracks, start_instants, tracks_of};
use workout_routes::track::{Reading, Track, TrackPoint};
use workout_routes::vecs::reversed;

fn sample(time: &str, speed: f64) -> TrackPoint {
    let zero = Reading { bits: 0 };
    TrackPoint {
        lon: zero,
        lat: zero,
        ele: zero,
        time: time.to_string(),
        speed: Reading { bits: speed.to_bits() },
        course: zero,
        h_acc: zero,
        v_acc: zero,
    }
}

fn named(name: &str, times: &[&str]) -> Track {
    Track {
        name: name.to_string(),
        start_time: "2000-01-01T00:00:00Z".to_string(),
        points: times.iter().map(|t| sample(t, 1.0)).collect(),
    }
}

fn entry(name: &str, secs: i64, nanos: u32) -> Dated {
    Dated { at: Instant { secs, nanos }, track: named(name, &[]) }
}

fn names(tracks: &[Track]) -> Vec<String> {
    tracks.iter().map(|t| t.name.clone()).collect()
}

fn entry_names(entries: &[Dated]) -> Vec<String> {
    entries.iter().map(|d| d.track.name.clone()).collect()
}

#[test]
fn reversed_turns_a_vector_round() {
    assert_eq!(reversed(vec![1, 2, 3]), vec![3, 2, 1]);
    assert_eq!(reversed(Vec::<u8>::new()), Vec::<u8>::new());
    assert_eq!(reversed(vec!["a"]), vec!["a"]);
}

#[test]
fn place_into_empty_list() {
    let mut list = Vec::new();
    place(&mut list, entry("a", 10, 0));
    assert_eq!(entry_names(&list), vec!["a"]);
}

#[test]
fn place_goes_behind_earlier_entries() {
    let mut list = vec![entry("a", 10, 0), entry("b", 20, 0), entry("c", 30, 0)];
    place(&mut list, entry("x", 25, 0));
    assert_eq!(entry_names(&list), vec!["a", "b", "x", "c"]);
    place(&mut list, entry("y", 40, 0));
    assert_eq!(entry_names(&list), vec!["a", "b", "x", "c", "y"]);
    place(&mut list, entry("z", 5, 0));
    assert_eq!(entry_names(&list), vec!["z", "a", "b", "x", "c", "y"]);
}

#[test]
fn place_goes_in_front_of_entries_of_its_own_date() {
    let mut list = vec![entry("a", 10, 0), entry("b", 20, 0), entry("c", 20, 0)];
    place(&mut list, entry("x", 20, 0));
    assert_eq!(entry_names(&list), vec!["a", "x", "b", "c"]);
}

#[test]
fn place_looks_at_nanoseconds() {
    let mut list = vec![entry("a", 10, 5), entry("b", 10, 7)];
    place(&mut list, entry("x", 10, 6));
    assert_eq!(entry_names(&list), vec!["a", "x", "b"]);
}

#[test]
fn sort_dated_orders_by_date() {
    let out = sort_dated(vec![
        entry("c", 30, 0),
        entry("a", 10, 0),
        entry("d", 40, 0),
        entry("b", 20, 0),
    ]);
    assert_eq!(entry_names(&out), vec!["a", "b", "c", "d"]);
    let dates: Vec<i64> = out.iter().map(|d| d.at.secs).collect();
    assert_eq!(dates, vec![10, 20, 30, 40]);
}

#[test]
fn sort_dated_is_stable() {
    let out = sort_dated(vec![
        entry("b1", 20, 0),
        entry("a1", 10, 0),
        entry("b2", 20, 0),
        entry("a2", 10, 0),
        entry("b3", 20, 0),
    ]);
    assert_eq!(entry_names(&out), vec!["a1", "a2", "b1", "b2", "b3"]);
}

#[test]
fn sort_dated_of_nothing_and_of_one() {
    assert!(sort_dated(Vec::new()).is_empty());
    let out = sort_dated(vec![entry("a", 1, 1)]);
    assert_eq!(out, vec![entry("a", 1, 1)]);
}

#[test]
fn sort_dated_keeps_every_entry() {
    let input: Vec<Dated> = (0..50)
        .map(|i: i64| entry(&format!("n{}", i), (i * 7) % 11, 0))
        .collect();
    let out = sort_dated(input.clone());
    assert_eq!(out.len(), input.len());
    for pair in out.windows(2) {
        assert!(!pair[1].at.is_before(&pair[0].at));
    }
    for key in 0..11 {
        let came: Vec<&Dated> = input.iter().filter(|d| d.at.secs == key).collect();
        let went: Vec<&Dated> = out.iter().filter(|d| d.at.secs == key).collect();
        assert_eq!(came, went);
    }
}

#[test]
fn start_instants_reads_each_first_point() {
    let tracks = vec![
        named("a", &["1970-01-01T00:00:10Z", "x"]),
        named("b", &["1970-01-01T00:00:05Z"]),
    ];
    assert_eq!(
        start_instants(&tracks),
        Ok(vec![Instant { secs: 10, nanos: 0 }, Instant { secs: 5, nanos: 0 }])
    );
    assert_eq!(start_instants(&Vec::new()), Ok(Vec::new()));
}

#[test]
fn start_instants_stops_at_the_first_fault() {
    let tracks = vec![
        named("a", &["1970-01-01T00:00:10Z"]),
        named("b", &["soon"]),
        named("c", &[]),
    ];
    assert_eq!(start_instants(&tracks), Err(RunError::TimestampFormat));
    let tracks = vec![named("c", &[]), named("b", &["soon"])];
    assert_eq!(start_instants(&tracks), Err(RunError::EmptyTrack));
}

#[test]
fn date_tracks_pairs_in_order() {
    let tracks = vec![named("a", &[]), named("b", &[]), named("c", &[])];
    let dates = vec![
        Instant { secs: 3, nanos: 0 },
        Instant { secs: 1, nanos: 0 },
        Instant { secs: 2, nanos: 0 },
    ];
    let out = date_tracks(tracks, dates);
    assert_eq!(out, vec![entry("a", 3, 0), entry("b", 1, 0), entry("c", 2, 0)]);
}

#[test]
fn tracks_of_keeps_the_order() {
    let out = tracks_of(vec![entry("a", 3, 0), entry("b", 1, 0), entry("c", 2, 0)]);
    assert_eq!(names(&out), vec!["a", "b", "c"]);
    assert!(tracks_of(Vec::new()).is_empty());
}

#[test]
fn morning_run_comes_before_evening_walk() {
    let evening = Track {
        name: "Evening Walk".to_string(),
        start_time: "2024-01-01T18:00:00Z".to_string(),
        points: vec![sample("2024-01-01T18:00:00Z", 1.0), sample("2024-01-01T18:00:01Z", 1.0)],
    };
    let morning = Track {
        name: "Morning Run".to_string(),
        start_time: "2024-01-01T06:00:00Z".to_string(),
        points: vec![
            sample("2024-01-01T06:00:00Z", 2.0),
            sample("2024-01-01T06:00:01Z", 4.0),
            sample("2024-01-01T06:00:02Z", 6.0),
        ],
    };
    let out = order_tracks(vec![evening.clone(), morning.clone()]).unwrap();
    assert_eq!(out, vec![morning.clone(), evening.clone()]);
    let out = order_tracks(vec![morning.clone(), evening.clone()]).unwrap();
    assert_eq!(out, vec![morning, evening]);
}

#[test]
fn order_goes_by_the_first_point_not_the_session() {
    let mut early = named("early", &["2024-01-01T06:00:00Z"]);
    early.start_time = "2024-01-02T00:00:00Z".to_string();
    let mut late = named("late", &["2024-01-01T07:00:00Z"]);
    late.start_time = "2023-01-01T00:00:00Z".to_string();
    let out = order_tracks(vec![late, early]).unwrap();
    assert_eq!(names(&out), vec!["early", "late"]);
}

#[test]
fn order_compares_instants_not_texts() {
    let a = named("a", &["2024-01-01T09:00:00+05:00"]);
    let b = named("b", &["2024-01-01T06:00:00Z"]);
    let c = named("c", &["2024-01-01T05:30:00.5Z"]);
    let out = order_tracks(vec![b, c, a]).unwrap();
    assert_eq!(names(&out), vec!["a", "c", "b"]);
}

#[test]
fn tracks_with_one_start_keep_their_order() {
    let out = order_tracks(vec![
        named("x1", &["2024-01-01T08:00:00Z"]),
        named("y1", &["2024-01-01T07:00:00Z"]),
        named("x2", &["2024-01-01T10:00:00+02:00"]),
        named("y2", &["2024-01-01T07:00:00Z"]),
        named("x3", &["2024-01-01T08:00:00.000Z"]),
    ])
    .unwrap();
    assert_eq!(names(&out), vec!["y1", "y2", "x1", "x2", "x3"]);
}

#[test]
fn earlier_start_always_comes_first() {
    let times = [
        "2024-03-01T10:00:00Z",
        "2024-01-01T10:00:00Z",
        "2024-02-01T10:00:00Z",
        "2024-01-01T10:00:00.5Z",
        "2023-12-31T23:59:59-01:00",
        "2024-01-01T10:00:00Z",
    ];
    let tracks: Vec<Track> =
        times.iter().enumerate().map(|(i, t)| named(&format!("n{}", i), &[t])).collect();
    let out = order_tracks(tracks).unwrap();
    assert_eq!(out.len(), times.len());
    for i in 0..out.len() {
        for j in 0..out.len() {
            let a = out[i].start_instant().unwrap();
            let b = out[j].start_instant().unwrap();
            if a.is_before(&b) {
                assert!(i < j);
            }
        }
    }
    assert_eq!(names(&out), vec!["n4", "n1", "n5", "n3", "n2", "n0"]);
}

#[test]
fn order_of_nothing_is_nothing() {
    assert_eq!(order_tracks(Vec::new()), Ok(Vec::new()));
}

#[test]
fn empty_track_fails_the_order() {
    let out = order_tracks(vec![named("a", &["2024-01-01T06:00:00Z"]), named("b", &[])]);
    assert_eq!(out, Err(RunError::EmptyTrack));
    assert_eq!(order_tracks(vec![named("b", &[])]), Err(RunError::EmptyTrack));
}

#[test]
fn unreadable_first_timestamp_fails_the_order() {
    let out = order_tracks(vec![
        named("a", &["2024-01-01T06:00:00Z"]),
        named("b", &["2024-01-01 at six"]),
    ]);
    assert_eq!(out, Err(RunError::TimestampFormat));
}

#[test]
fn first_faulty_track_decides_the_error() {
    let out = order_tracks(vec![
        named("a", &["2024-01-01T06:00:00Z"]),
        named("b", &[]),
        named("c", &["?"]),
    ]);
    assert_eq!(out, Err(RunError::EmptyTrack));
    let out = order_tracks(vec![
        named("c", &["?"]),
        named("a", &["2024-01-01T06:00:00Z"]),
        named("b", &[]),
    ]);
    assert_eq!(out, Err(RunError::TimestampFormat));
}
