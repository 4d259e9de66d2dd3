use playlist_formatter::time::{Date, DateTime, Duration, Time};
use playlist_formatter::track::{merge_consecutive, Track};

fn at(year: i32, month: u32, day: u32, hour: u32, minute: u32, second: u32) -> DateTime {
    DateTime { date: Date { year, month, day }, time: Time { hour, minute, second } }
}

fn timed(artist: &str, title: &str, seconds: Option<i64>) -> Track {
    Track::new_with_time(
        artist.to_string(),
        title.to_string(),
        None,
        None,
        seconds.map(Duration::from_seconds),
    )
}

#[test]
fn new_track() {
    let track = Track::new("Artist".to_string(), "Title".to_string());
    assert_eq!(track.artist, "Artist");
    assert_eq!(track.title, "Title");
    assert!(track.start_time.is_none());
    assert!(track.end_time.is_none());
    assert!(track.play_time.is_none());
}

#[test]
fn new_track_with_time() {
    let start_time = at(2023, 1, 1, 12, 0, 0);
    let end_time = at(2023, 1, 1, 13, 0, 0);
    let play_time = Duration::try_hours(1).unwrap();
    let track = Track::new_with_time(
        "Artist".to_string(),
        "Title".to_string(),
        Some(start_time),
        Some(end_time),
        Some(play_time),
    );
    assert_eq!(track.start_time.unwrap(), start_time);
    assert_eq!(track.end_time.unwrap(), end_time);
    assert_eq!(track.play_time.unwrap(), play_time);
}

#[test]
fn equals() {
    let start_time = at(2023, 1, 1, 12, 0, 0);
    let end_time = at(2023, 1, 1, 13, 0, 0);
    let play_time = Duration::try_minutes(2).unwrap();
    let track1 = Track::new_with_time(
        "Some Artist".to_string(),
        "Song Title (Remix)".to_string(),
        Some(start_time),
        Some(end_time),
        Some(play_time),
    );
    let track2 = Track::new("Some Artist".to_string(), "Song Title (Remix)".to_string());
    assert_eq!(track1, track2);
}

#[test]
fn lengths() {
    let track = Track::new("Artist".to_string(), "Title".to_string());
    assert_eq!(track.artist_length(), 6);
    assert_eq!(track.title_length(), 5);
}

#[test]
fn add_duration_to_track_without_initial_play_time() {
    let track = Track::new("Artist".to_string(), "Title".to_string());
    let duration = Duration::try_minutes(5);
    let result = track + duration;
    assert_eq!(result.play_time.unwrap(), Duration::try_minutes(5).unwrap());
}

#[test]
fn add_duration_to_track_with_initial_play_time() {
    let start_time = at(2023, 1, 1, 12, 0, 0);
    let end_time = at(2023, 1, 1, 12, 30, 0);
    let track = Track::new_with_time(
        "Artist".to_string(),
        "Title".to_string(),
        Some(start_time),
        Some(end_time),
        Some(Duration::try_minutes(30).unwrap()),
    );
    let duration = Duration::try_minutes(15);
    let result = track + duration;
    assert_eq!(result.play_time, Duration::try_minutes(45));
}

#[test]
fn add_none_to_track() {
    let mut track = Track::new("Artist".to_string(), "Title".to_string());
    track += None;
    assert!(track.play_time.is_none());
}

#[test]
fn add_some_duration_to_track_without_initial_play_time() {
    let mut track = Track::new("Artist".to_string(), "Title".to_string());
    let duration = Duration::try_minutes(10);
    track += duration;
    assert_eq!(track.play_time, Duration::try_minutes(10));
}

#[test]
fn add_some_duration_to_track_with_initial_play_time() {
    let start_time = at(2023, 1, 1, 12, 0, 0);
    let end_time = at(2023, 1, 1, 13, 0, 0);
    let mut track = Track::new_with_time(
        "Artist".to_string(),
        "Title".to_string(),
        Some(start_time),
        Some(end_time),
        Duration::try_hours(1),
    );
    let duration = Some(Duration::try_minutes(30).unwrap());
    track += duration;
    assert_eq!(track.play_time, Duration::try_minutes(90));
}

#[test]
fn add_plain_duration_to_track() {
    let track = Track::new("Artist".to_string(), "Title".to_string());
    let result = track + Duration::from_seconds(7);
    assert_eq!(result.play_time, Some(Duration::from_seconds(7)));
    let mut result = result + Duration::from_seconds(5);
    assert_eq!(result.play_time, Some(Duration::from_seconds(12)));
    result += Duration::from_seconds(-2);
    assert_eq!(result.play_time, Some(Duration::from_seconds(10)));
    assert_eq!(result.artist, "Artist");
    assert_eq!(result.title, "Title");
}

#[test]
fn add_none_keeps_the_play_time() {
    let track = timed("Artist", "Title", Some(30));
    let result = track + None;
    assert_eq!(result.play_time, Some(Duration::from_seconds(30)));
}

#[test]
fn equality_is_case_sensitive_and_exact() {
    let track = Track::new("Artist".to_string(), "Title".to_string());
    assert_ne!(track, Track::new("artist".to_string(), "Title".to_string()));
    assert_ne!(track, Track::new("Artist".to_string(), "Title ".to_string()));
    assert_ne!(track, Track::new("Title".to_string(), "Artist".to_string()));
}

#[test]
fn lengths_count_characters_not_bytes() {
    let track = Track::new("Björk".to_string(), "Jóga 日本".to_string());
    assert_eq!(track.artist_length(), 5);
    assert_eq!(track.title_length(), 7);
}

#[test]
fn display_joins_artist_and_title() {
    let track = Track::new("Artist".to_string(), "Title".to_string());
    assert_eq!(track.display(), "Artist - Title");
}

#[test]
fn clone_keeps_every_field() {
    let track = Track::new_with_time(
        "Artist".to_string(),
        "Title".to_string(),
        Some(at(2023, 1, 1, 12, 0, 0)),
        Some(at(2023, 1, 1, 12, 3, 0)),
        Some(Duration::from_seconds(180)),
    );
    let copy = track.clone();
    assert_eq!(copy.artist, track.artist);
    assert_eq!(copy.title, track.title);
    assert_eq!(copy.start_time, track.start_time);
    assert_eq!(copy.end_time, track.end_time);
    assert_eq!(copy.play_time, track.play_time);
}

#[test]
fn merge_sums_consecutive_rows_of_one_play() {
    let rows = vec![timed("A", "T", Some(5)), timed("A", "T", Some(3)), timed("B", "U", Some(2))];
    let tracks = merge_consecutive(rows).unwrap();
    assert_eq!(tracks.len(), 2);
    assert_eq!(tracks[0].artist, "A");
    assert_eq!(tracks[0].title, "T");
    assert_eq!(tracks[0].play_time, Some(Duration::from_seconds(8)));
    assert_eq!(tracks[1].artist, "B");
    assert_eq!(tracks[1].title, "U");
    assert_eq!(tracks[1].play_time, Some(Duration::from_seconds(2)));
}

#[test]
fn merge_leaves_rows_without_repeats_as_they_are() {
    let rows = vec![
        timed("A", "T", Some(5)),
        timed("B", "U", None),
        timed("A", "T", Some(3)),
        timed("A", "U", Some(0)),
    ];
    let tracks = merge_consecutive(rows).unwrap();
    assert_eq!(tracks.len(), 4);
    assert_eq!(tracks[0], Track::new("A".to_string(), "T".to_string()));
    assert_eq!(tracks[0].play_time, Some(Duration::from_seconds(5)));
    assert_eq!(tracks[1], Track::new("B".to_string(), "U".to_string()));
    assert_eq!(tracks[1].play_time, None);
    assert_eq!(tracks[2], Track::new("A".to_string(), "T".to_string()));
    assert_eq!(tracks[2].play_time, Some(Duration::from_seconds(3)));
    assert_eq!(tracks[3], Track::new("A".to_string(), "U".to_string()));
    assert_eq!(tracks[3].play_time, Some(Duration::from_seconds(0)));
}

#[test]
fn merge_takes_the_end_of_the_last_row_and_the_start_of_the_first() {
    let first = Track::new_with_time(
        "A".to_string(),
        "T".to_string(),
        Some(at(2023, 3, 30, 16, 0, 0)),
        Some(at(2023, 3, 30, 16, 1, 0)),
        Some(Duration::from_seconds(60)),
    );
    let second = Track::new_with_time(
        "A".to_string(),
        "T".to_string(),
        Some(at(2023, 3, 30, 16, 2, 0)),
        Some(at(2023, 3, 30, 16, 5, 0)),
        None,
    );
    let third = Track::new_with_time(
        "A".to_string(),
        "T".to_string(),
        Some(at(2023, 3, 30, 16, 6, 0)),
        None,
        Some(Duration::from_seconds(30)),
    );
    let tracks = merge_consecutive(vec![first, second]).unwrap();
    assert_eq!(tracks.len(), 1);
    assert_eq!(tracks[0].start_time, Some(at(2023, 3, 30, 16, 0, 0)));
    assert_eq!(tracks[0].end_time, Some(at(2023, 3, 30, 16, 5, 0)));
    assert_eq!(tracks[0].play_time, Some(Duration::from_seconds(60)));

    let mut rows = tracks;
    rows.push(third);
    let tracks = merge_consecutive(rows).unwrap();
    assert_eq!(tracks.len(), 1);
    assert_eq!(tracks[0].start_time, Some(at(2023, 3, 30, 16, 0, 0)));
    assert_eq!(tracks[0].end_time, None);
    assert_eq!(tracks[0].play_time, Some(Duration::from_seconds(90)));
}

#[test]
fn merge_of_rows_without_play_time_has_none() {
    let tracks = merge_consecutive(vec![timed("A", "T", None), timed("A", "T", None)]).unwrap();
    assert_eq!(tracks.len(), 1);
    assert_eq!(tracks[0].play_time, None);

    let tracks = merge_consecutive(vec![timed("A", "T", None), timed("A", "T", Some(4))]).unwrap();
    assert_eq!(tracks.len(), 1);
    assert_eq!(tracks[0].play_time, Some(Duration::from_seconds(4)));
}

#[test]
fn merge_of_nothing_is_nothing() {
    assert_eq!(merge_consecutive(Vec::new()).unwrap().len(), 0);
}

#[test]
fn merge_fails_where_a_sum_does_not_fit() {
    let rows = vec![timed("A", "T", Some(i64::MAX)), timed("A", "T", Some(1))];
    assert!(merge_consecutive(rows).is_none());
    let rows = vec![timed("A", "T", Some(i64::MAX)), timed("B", "T", Some(1))];
    assert_eq!(merge_consecutive(rows).unwrap().len(), 2);
}
