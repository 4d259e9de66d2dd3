use playlist_formatter::error::PlaylistError;
use playlist_formatter::time::{Date, DateTime, Duration, Time};
use playlist_formatter::track::Track;
use playlist_formatter::types::FileFormat;
use playlist_formatter::utils::{
    append_extension_to_path, date_from_captures, extract_datetime_from_name, formatted_duration,
    get_max_artist_length, get_max_playtime_length, get_max_title_length, get_total_playtime,
    parse_number, playlist_format, sum_playtime_seconds, try_total_playtime,
};

fn midnight(year: i32, month: u32, day: u32) -> DateTime {
    DateTime { date: Date { year, month, day }, time: Time { hour: 0, minute: 0, second: 0 } }
}

fn timed(artist: &str, title: &str, seconds: Option<i64>) -> Track {
    Track::new_with_time(
        artist.to_string(),
        title.to_string(),
        None,
        None,
        seconds.map(Duration::from_seconds),
    )
}

#[test]
fn test_append_extension_to_path() {
    let path = String::from("/path/to/file");
    let result = append_extension_to_path(path, "csv");
    assert_eq!(result.as_str(), "/path/to/file.csv");

    let path = String::from("/path/to/file-2024.01.01");
    let result = append_extension_to_path(path, "csv");
    assert_eq!(result.as_str(), "/path/to/file-2024.01.01.csv");

    let path = String::from("14.5.2001");
    let result = append_extension_to_path(path, "txt");
    assert_eq!(result.as_str(), "14.5.2001.txt");
}

#[test]
fn test_get_total_playtime() {
    let tracks: Vec<Track> = Vec::new();
    assert_eq!(get_total_playtime(&tracks), None);
}

#[test]
fn test_formatted_duration() {
    let duration = Duration::from_seconds(59);
    assert_eq!(formatted_duration(duration), "0:59");

    let duration = Duration::from_seconds(77);
    assert_eq!(formatted_duration(duration), "1:17");

    let duration = Duration::try_minutes(45).unwrap();
    assert_eq!(formatted_duration(duration), "45:00");

    let duration = Duration::try_minutes(60).unwrap();
    assert_eq!(formatted_duration(duration), "1:00:00");

    let duration = Duration::from_seconds(31 * 60 + 33);
    assert_eq!(formatted_duration(duration), "31:33");
}

#[test]
fn formatted_duration_edges() {
    assert_eq!(formatted_duration(Duration::from_seconds(0)), "");
    assert_eq!(formatted_duration(Duration::from_seconds(-5)), "");
    assert_eq!(formatted_duration(Duration::from_seconds(1)), "0:01");
    assert_eq!(formatted_duration(Duration::from_seconds(60)), "1:00");
    assert_eq!(formatted_duration(Duration::from_seconds(3599)), "59:59");
    assert_eq!(formatted_duration(Duration::from_seconds(3600)), "1:00:00");
    assert_eq!(formatted_duration(Duration::from_seconds(3661)), "1:01:01");
    assert_eq!(formatted_duration(Duration::from_seconds(36000 + 9 * 60 + 7)), "10:09:07");
    assert_eq!(formatted_duration(Duration::from_seconds(123 * 3600 + 45 * 60 + 6)), "123:45:06");
    assert_eq!(formatted_duration(Duration::from_seconds(i64::MAX)), "2562047788015215:30:07");
}

#[test]
fn total_playtime_is_none_where_every_track_has_none() {
    let tracks = vec![timed("A", "T", None), timed("B", "U", None)];
    assert_eq!(get_total_playtime(&tracks), None);
    assert_eq!(try_total_playtime(&tracks).unwrap(), None);
    assert_eq!(sum_playtime_seconds(&tracks), 0);
}

#[test]
fn total_playtime_is_the_sum() {
    let tracks = vec![timed("A", "T", Some(5)), timed("B", "U", None), timed("C", "V", Some(0)), timed("D", "W", Some(120))];
    assert_eq!(get_total_playtime(&tracks), Some(Duration::from_seconds(125)));
    assert_eq!(try_total_playtime(&tracks).unwrap(), Some(Duration::from_seconds(125)));
    assert_eq!(sum_playtime_seconds(&tracks), 125);
}

#[test]
fn total_playtime_of_zero_seconds_is_none() {
    let tracks = vec![timed("A", "T", Some(0))];
    assert_eq!(get_total_playtime(&tracks), None);
    let tracks = vec![timed("A", "T", Some(7)), timed("B", "U", Some(-7))];
    assert_eq!(get_total_playtime(&tracks), None);
}

#[test]
fn total_playtime_that_does_not_fit_is_an_error() {
    let tracks = vec![timed("A", "T", Some(i64::MAX)), timed("B", "U", Some(i64::MAX))];
    assert_eq!(sum_playtime_seconds(&tracks), 2 * (i64::MAX as i128));
    assert!(matches!(try_total_playtime(&tracks), Err(PlaylistError::DurationOverflow)));
    let tracks = vec![
        timed("A", "T", Some(i64::MAX)),
        timed("B", "U", Some(i64::MAX)),
        timed("C", "V", Some(-i64::MAX)),
    ];
    assert_eq!(try_total_playtime(&tracks).unwrap(), Some(Duration::from_seconds(i64::MAX)));
}

#[test]
fn longest_lengths() {
    let tracks = vec![
        timed("Björk", "Jóga", Some(59)),
        timed("A", "A much longer title", Some(3600)),
        timed("Somebody else", "", None),
    ];
    assert_eq!(get_max_artist_length(&tracks), 13);
    assert_eq!(get_max_title_length(&tracks), 19);
    assert_eq!(get_max_playtime_length(&tracks), 7);
    let none: Vec<Track> = Vec::new();
    assert_eq!(get_max_artist_length(&none), 0);
    assert_eq!(get_max_title_length(&none), 0);
    assert_eq!(get_max_playtime_length(&none), 0);
    let untimed = vec![timed("A", "T", None), timed("B", "U", Some(0))];
    assert_eq!(get_max_playtime_length(&untimed), 0);
}

#[test]
fn date_in_name_day_first() {
    assert_eq!(extract_datetime_from_name("Club Night 10.01.2019"), Some(midnight(2019, 1, 10)));
    assert_eq!(extract_datetime_from_name("Serato 30.3.2023"), Some(midnight(2023, 3, 30)));
    assert_eq!(extract_datetime_from_name("14.5.2001"), Some(midnight(2001, 5, 14)));
}

#[test]
fn date_in_name_year_first() {
    assert_eq!(extract_datetime_from_name("2019.01.10 Club Night"), Some(midnight(2019, 1, 10)));
    assert_eq!(extract_datetime_from_name("rekordbox-2020.12.20"), Some(midnight(2020, 12, 20)));
    assert_eq!(extract_datetime_from_name("set 2024.2.29"), Some(midnight(2024, 2, 29)));
}

#[test]
fn date_in_name_absent() {
    assert_eq!(extract_datetime_from_name(""), None);
    assert_eq!(extract_datetime_from_name("rekordbox"), None);
    assert_eq!(extract_datetime_from_name("10-01-2019"), None);
    assert_eq!(extract_datetime_from_name("10.01.19"), None);
}

#[test]
fn date_in_name_day_first_match_decides() {
    // The day-first pattern matches in "01.02.2020": the first of February.
    assert_eq!(extract_datetime_from_name("01.02.2020"), Some(midnight(2020, 2, 1)));
    // It matches "31.02.2019" too, which is no date: the other pattern is not tried.
    assert_eq!(extract_datetime_from_name("31.02.2019 and 2019.03.01"), None);
    assert_eq!(extract_datetime_from_name("99.99.2019"), None);
    // Inside "2019.01.10.2020" the day-first pattern finds 01.10.2020.
    assert_eq!(extract_datetime_from_name("2019.01.10.2020"), Some(midnight(2020, 10, 1)));
}

#[test]
fn date_in_name_with_other_digits() {
    // Digits of other scripts match the pattern and write no number.
    assert_eq!(extract_datetime_from_name("١٠.٠١.٢٠١٩"), None);
}

#[test]
fn date_from_given_captures() {
    let groups = vec![
        Some("10.01.2019".to_string()),
        Some("10".to_string()),
        Some("01".to_string()),
        Some("2019".to_string()),
    ];
    assert_eq!(date_from_captures(&groups, 3, 2, 1), Some(midnight(2019, 1, 10)));
    assert_eq!(date_from_captures(&groups, 3, 1, 2), Some(midnight(2019, 10, 1)));
    assert_eq!(date_from_captures(&groups, 4, 2, 1), None);
    assert_eq!(date_from_captures(&groups, 0, 2, 1), None);
    let missing = vec![Some("x".to_string()), None, Some("01".to_string()), Some("2019".to_string())];
    assert_eq!(date_from_captures(&missing, 3, 2, 1), None);
    let huge = vec![None, Some("1".to_string()), Some("1".to_string()), Some("4000000000".to_string())];
    assert_eq!(date_from_captures(&huge, 3, 2, 1), None);
    let no_groups: Vec<Option<String>> = Vec::new();
    assert_eq!(date_from_captures(&no_groups, 3, 2, 1), None);
}

#[test]
fn numbers_of_digits() {
    assert_eq!(parse_number("0"), Some(0));
    assert_eq!(parse_number("007"), Some(7));
    assert_eq!(parse_number("2019"), Some(2019));
    assert_eq!(parse_number("4294967295"), Some(u32::MAX));
    assert_eq!(parse_number("4294967296"), None);
    assert_eq!(parse_number("99999999999999999999999"), None);
    assert_eq!(parse_number(""), None);
    assert_eq!(parse_number("+5"), None);
    assert_eq!(parse_number("-5"), None);
    assert_eq!(parse_number("12a"), None);
    assert_eq!(parse_number(" 12"), None);
    assert_eq!(parse_number("٣"), None);
    assert_eq!(parse_number("42949672950x"), None);
}

#[test]
fn playlist_format_by_extension() {
    assert_eq!(playlist_format("list.csv", Some("csv")).unwrap(), FileFormat::Csv);
    assert_eq!(playlist_format("LIST.TXT", Some("TXT")).unwrap(), FileFormat::Txt);
    let error = playlist_format("list.mp3", Some("mp3")).unwrap_err();
    assert!(matches!(error, PlaylistError::UnsupportedFormat { .. }));
    assert_eq!(
        error.message(),
        "Unsupported file format: 'mp3'. Supported file types are: Txt, Csv"
    );
    let error = playlist_format("/music/list", None).unwrap_err();
    assert!(matches!(error, PlaylistError::UnsupportedFormat { extension: None, .. }));
    assert_eq!(
        error.message(),
        "Input file has no file extension: '/music/list'. Supported file types are: Txt, Csv"
    );
    let error = playlist_format("list.", Some("")).unwrap_err();
    assert!(matches!(error, PlaylistError::UnsupportedFormat { .. }));
}
