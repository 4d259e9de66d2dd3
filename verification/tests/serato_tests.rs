use playlist_formatter::error::PlaylistError;
use playlist_formatter::fields::{HeaderMap, Row};
use playlist_formatter::serato::{
    column_names_chars, column_offsets_chars, is_divider_chars, parse_serato_playlist_info,
    parse_serato_tracks_from_data, parse_track_with_time_from_row, read_serato_csv,
    read_serato_txt, read_serato_txt_lines, recover_session_date, split_fixed_width,
    track_from_times,
};
use playlist_formatter::time::{Date, DateTime, Duration, Time};
use playlist_formatter::types::{FileFormat, PlaylistType};

fn chars(text: &str) -> Vec<char> {
    text.chars().collect()
}

fn strings(items: &[&str]) -> Vec<String> {
    items.iter().map(|item| item.to_string()).collect()
}

fn names(header: &str) -> Vec<String> {
    column_names_chars(&chars(header)).iter().map(|name| name.iter().collect()).collect()
}

fn lines(items: &[&str]) -> Vec<Vec<String>> {
    items.iter().map(|item| vec![item.to_string()]).collect()
}

fn row(fields: &[(&str, &str)]) -> Row {
    let mut row = Row::new();
    for (key, value) in fields {
        row.insert(key.to_string(), value.to_string());
    }
    row
}

fn date(year: i32, month: u32, day: u32) -> Date {
    Date { year, month, day }
}

fn time(hour: u32, minute: u32, second: u32) -> Time {
    Time { hour, minute, second }
}

fn at(year: i32, month: u32, day: u32, hour: u32, minute: u32, second: u32) -> DateTime {
    DateTime { date: date(year, month, day), time: time(hour, minute, second) }
}

const HEADER: &str = "ARTIST          TITLE               PLAYTIME";

#[test]
fn column_names_of_a_header() {
    assert_eq!(names(HEADER), strings(&["ARTIST", "TITLE", "PLAYTIME"]));
    assert_eq!(
        names("name          artist     start time      end time"),
        strings(&["name", "artist", "start time", "end time"])
    );
}

#[test]
fn column_names_need_five_spaces_between() {
    assert_eq!(names("ARTIST   TITLE    PLAYTIME"), strings(&["ARTIST   TITLE    PLAYTIME"]));
    assert_eq!(names("a     b"), strings(&["a", "b"]));
    assert_eq!(names("a      b"), strings(&["a", "b"]));
    assert_eq!(names("a          b"), strings(&["a", "b"]));
    assert_eq!(names("a            b"), strings(&["a", "b"]));
}

#[test]
fn column_names_leave_out_empty_pieces() {
    assert_eq!(names(""), Vec::<String>::new());
    assert_eq!(names("       "), Vec::<String>::new());
    assert_eq!(names("     a     "), strings(&["a"]));
    assert_eq!(names("a     \u{a0}     b"), strings(&["a", "b"]));
    assert_eq!(names("a\tb"), strings(&["a\tb"]));
}

#[test]
fn column_offsets_are_first_occurrences() {
    let header = chars(HEADER);
    let columns = column_names_chars(&header);
    assert_eq!(column_offsets_chars(&header, &columns), vec![0, 16, 36]);

    // A name that stands inside an earlier one is found there.
    let header = chars("filename     name");
    let columns = column_names_chars(&header);
    assert_eq!(column_offsets_chars(&header, &columns), vec![0, 4]);

    // Offsets count characters.
    let header = chars("näme     ärtist     title");
    let columns = column_names_chars(&header);
    assert_eq!(column_offsets_chars(&header, &columns), vec![0, 9, 20]);
}

#[test]
fn dividers() {
    assert!(is_divider_chars(&chars("--------")));
    assert!(is_divider_chars(&chars("-")));
    assert!(is_divider_chars(&chars("")));
    assert!(!is_divider_chars(&chars("--- ---")));
    assert!(!is_divider_chars(&chars("- Artist")));
}

#[test]
fn fixed_width_round_trip() {
    let rows = read_serato_txt_lines(lines(&[
        HEADER,
        "--------------------------------------------",
        "Daft Punk       Around the World    7:09",
    ]));
    assert_eq!(
        rows,
        vec![
            strings(&["ARTIST", "TITLE", "PLAYTIME"]),
            strings(&["Daft Punk", "Around the World", "7:09"]),
        ]
    );
}

#[test]
fn fixed_width_line_without_the_last_cell() {
    let rows = read_serato_txt_lines(lines(&[
        HEADER,
        "--------------------------------------------",
        "Daft Punk       Around the World    7:09",
        "Moby            Porcelain",
        "Air",
        "Underworld      ",
        "Orbital         H",
    ]));
    assert_eq!(
        rows,
        vec![
            strings(&["ARTIST", "TITLE", "PLAYTIME"]),
            strings(&["Daft Punk", "Around the World", "7:09"]),
            strings(&["Moby", "Porcelain", ""]),
            strings(&["Air", "", ""]),
            strings(&["Underworld", "", ""]),
            strings(&["Orbital", "H", ""]),
        ]
    );
}

#[test]
fn fixed_width_cells_are_cut_at_the_offsets() {
    let rows = read_serato_txt_lines(lines(&[
        HEADER,
        "A very long artist name that runs on4:20",
        "                Title only",
        "                                    0:30",
    ]));
    assert_eq!(
        rows,
        vec![
            strings(&["ARTIST", "TITLE", "PLAYTIME"]),
            strings(&["A very long arti", "st name that runs on", "4:20"]),
            strings(&["", "Title only", ""]),
            strings(&["", "", "0:30"]),
        ]
    );
}

#[test]
fn fixed_width_skips_dividers_and_lines_without_cells() {
    let mut input = lines(&[HEADER, "-----", "Moby            Porcelain", "", "----------", "Air"]);
    input.push(Vec::new());
    input.push(strings(&["Orbital", "ignored"]));
    let rows = read_serato_txt_lines(input);
    assert_eq!(
        rows,
        vec![
            strings(&["ARTIST", "TITLE", "PLAYTIME"]),
            strings(&["Moby", "Porcelain", ""]),
            strings(&["Air", "", ""]),
            strings(&["Orbital", "", ""]),
        ]
    );
}

#[test]
fn fixed_width_of_nothing() {
    assert_eq!(read_serato_txt_lines(Vec::new()), Vec::<Vec<String>>::new());
    assert_eq!(read_serato_txt_lines(vec![Vec::new()]), Vec::<Vec<String>>::new());
    assert_eq!(read_serato_txt_lines(lines(&["", "x"])), vec![Vec::<String>::new()]);
}

#[test]
fn fixed_width_counts_characters() {
    let rows = read_serato_txt_lines(lines(&[
        "name          artist",
        "--------------------",
        "Jóga          Björk",
        "日本語           坂本龍一",
    ]));
    assert_eq!(
        rows,
        vec![
            strings(&["name", "artist"]),
            strings(&["Jóga", "Björk"]),
            strings(&["日本語", "坂本龍一"]),
        ]
    );
}

#[test]
fn split_one_fixed_width_line() {
    let offsets = vec![0, 16, 36];
    assert_eq!(
        split_fixed_width(&chars("Daft Punk       Around the World    7:09"), &offsets, 3),
        strings(&["Daft Punk", "Around the World", "7:09"])
    );
    assert_eq!(split_fixed_width(&chars("Moby"), &offsets, 3), strings(&["Moby", "", ""]));
    assert_eq!(split_fixed_width(&chars(""), &offsets, 3), strings(&["", "", ""]));
    assert_eq!(split_fixed_width(&chars("abc"), &offsets, 0), strings(&["abc"]));
    assert_eq!(split_fixed_width(&chars("abc"), &Vec::new(), 2), strings(&["", ""]));
    // Offsets out of order: the cut at 5 leaves nothing for the offset 10.
    assert_eq!(
        split_fixed_width(&chars("0123456789abcdefghijklmno"), &vec![10, 5, 20], 3),
        strings(&["56789abcdefghij", "klmno", ""])
    );
}

#[test]
fn track_of_a_row() {
    let track = parse_track_with_time_from_row(
        date(2023, 3, 30),
        &row(&[
            ("name", "Track One"),
            ("artist", "Artist A"),
            ("start time", "16.04.53 EEST"),
            ("end time", "16.08.01 EEST"),
            ("playtime", "00:03:08"),
            ("deck", "1"),
        ]),
    );
    assert_eq!(track.artist, "Artist A");
    assert_eq!(track.title, "Track One");
    assert_eq!(track.start_time, Some(at(2023, 3, 30, 16, 4, 53)));
    assert_eq!(track.end_time, Some(at(2023, 3, 30, 16, 8, 1)));
    assert_eq!(track.play_time, Some(Duration::from_seconds(188)));
}

#[test]
fn track_of_a_row_with_explicit_play_time_only() {
    let track = parse_track_with_time_from_row(
        date(1970, 1, 1),
        &row(&[("name", "Track"), ("artist", "Artist"), ("playtime", "01:02:03")]),
    );
    assert_eq!(track.start_time, None);
    assert_eq!(track.end_time, None);
    assert_eq!(track.play_time, Some(Duration::from_seconds(3723)));
}

#[test]
fn track_of_a_row_derives_the_play_time() {
    let track = parse_track_with_time_from_row(
        date(2019, 1, 10),
        &row(&[("name", "Track"), ("start time", "20.00.00 EET"), ("end time", "20.05.30 EET")]),
    );
    assert_eq!(track.artist, "");
    assert_eq!(track.title, "Track");
    assert_eq!(track.start_time, Some(at(2019, 1, 10, 20, 0, 0)));
    assert_eq!(track.end_time, Some(at(2019, 1, 10, 20, 5, 30)));
    assert_eq!(track.play_time, Some(Duration::from_seconds(330)));
}

#[test]
fn track_of_a_row_with_unreadable_play_time_derives_it() {
    let track = parse_track_with_time_from_row(
        date(2019, 1, 10),
        &row(&[
            ("name", "Track"),
            ("start time", "20.00.00 EET"),
            ("end time", "20.05.30 EET"),
            ("playtime", "five minutes"),
        ]),
    );
    assert_eq!(track.play_time, Some(Duration::from_seconds(330)));
}

#[test]
fn track_of_a_row_without_times() {
    let track = parse_track_with_time_from_row(
        date(2019, 1, 10),
        &row(&[("name", "Track"), ("artist", "Artist"), ("start time", "20:00:00"), ("end time", "")]),
    );
    assert_eq!(track.start_time, None);
    assert_eq!(track.end_time, None);
    assert_eq!(track.play_time, None);
    let track = parse_track_with_time_from_row(date(2019, 1, 10), &Row::new());
    assert_eq!(track.artist, "");
    assert_eq!(track.title, "");
    assert_eq!(track.play_time, None);
}

#[test]
fn track_of_a_row_that_ends_before_it_starts() {
    let track = parse_track_with_time_from_row(
        date(2019, 1, 10),
        &row(&[("start time", "23.59.00 EET"), ("end time", "00.01.00 EET")]),
    );
    assert_eq!(track.play_time, Some(Duration::from_seconds(-86280)));
}

#[test]
fn track_from_parsed_times() {
    let track = track_from_times(
        "Artist".to_string(),
        "Title".to_string(),
        date(2023, 3, 30),
        Some(time(16, 0, 0)),
        Some(time(16, 4, 0)),
        Some(time(0, 3, 59)),
    );
    assert_eq!(track.start_time, Some(at(2023, 3, 30, 16, 0, 0)));
    assert_eq!(track.end_time, Some(at(2023, 3, 30, 16, 4, 0)));
    assert_eq!(track.play_time, Some(Duration::from_seconds(239)));
    let track = track_from_times(
        "Artist".to_string(),
        "Title".to_string(),
        date(2023, 3, 30),
        Some(time(16, 0, 0)),
        None,
        None,
    );
    assert_eq!(track.start_time, Some(at(2023, 3, 30, 16, 0, 0)));
    assert_eq!(track.end_time, None);
    assert_eq!(track.play_time, None);
}

#[test]
fn playlist_info_with_start_time() {
    let (name, start) = parse_serato_playlist_info(&row(&[
        ("name", "Serato 30.3.2023"),
        ("start time", "30.03.2023, 16.04.53 EEST"),
    ]));
    assert_eq!(name, "Serato 30.3.2023");
    assert_eq!(start, Some(at(2023, 3, 30, 16, 4, 53)));
    let (name, start) = parse_serato_playlist_info(&row(&[
        ("name", "Club Night"),
        ("start time", "10.01.2019, 20.00.00 EET"),
    ]));
    assert_eq!(name, "Club Night");
    assert_eq!(start, Some(at(2019, 1, 10, 20, 0, 0)));
}

#[test]
fn playlist_info_structured_date_wins_over_the_name() {
    let (_, start) = parse_serato_playlist_info(&row(&[
        ("name", "Club Night 10.01.2019"),
        ("start time", "24.12.2020, 21.30.00 EET"),
    ]));
    assert_eq!(start, Some(at(2020, 12, 24, 21, 30, 0)));
}

#[test]
fn playlist_info_falls_back_to_the_name() {
    let (name, start) = parse_serato_playlist_info(&row(&[("name", "Club Night 10.01.2019")]));
    assert_eq!(name, "Club Night 10.01.2019");
    assert_eq!(start, Some(at(2019, 1, 10, 0, 0, 0)));
    let (_, start) = parse_serato_playlist_info(&row(&[
        ("name", "2019.01.10 Club Night"),
        ("start time", "yesterday"),
    ]));
    assert_eq!(start, Some(at(2019, 1, 10, 0, 0, 0)));
    let (name, start) = parse_serato_playlist_info(&row(&[("start time", "")]));
    assert_eq!(name, "");
    assert_eq!(start, None);
    let (_, start) = parse_serato_playlist_info(&row(&[("name", "Club Night")]));
    assert_eq!(start, None);
}

#[test]
fn session_date_recovery() {
    let structured = at(2020, 12, 24, 21, 30, 0);
    assert_eq!(recover_session_date(Some(structured), "Club Night 10.01.2019"), Some(structured));
    assert_eq!(recover_session_date(Some(structured), ""), Some(structured));
    assert_eq!(recover_session_date(None, "Club Night 10.01.2019"), Some(at(2019, 1, 10, 0, 0, 0)));
    assert_eq!(recover_session_date(None, "2019.01.10 Club Night"), Some(at(2019, 1, 10, 0, 0, 0)));
    assert_eq!(recover_session_date(None, "Club Night"), None);
    assert_eq!(recover_session_date(None, ""), None);
}

fn history() -> Vec<Row> {
    vec![
        row(&[
            ("name", "Serato 30.3.2023"),
            ("artist", ""),
            ("start time", "30.03.2023, 16.04.53 EEST"),
            ("end time", "30.03.2023, 17.50.13 EEST"),
            ("playtime", "01:45:20"),
        ]),
        row(&[
            ("name", "Track One"),
            ("artist", "Artist A"),
            ("start time", "16.04.53 EEST"),
            ("end time", "16.08.01 EEST"),
            ("playtime", "00:03:08"),
        ]),
        row(&[
            ("name", "Track One"),
            ("artist", "Artist A"),
            ("start time", "16.08.01 EEST"),
            ("end time", "16.09.01 EEST"),
            ("playtime", "00:01:00"),
        ]),
        row(&[
            ("name", "Track Two"),
            ("artist", "Artist B"),
            ("start time", "16.09.01 EEST"),
            ("end time", "16.12.00 EEST"),
            ("playtime", "00:02:59"),
        ]),
        row(&[
            ("name", "Track One"),
            ("artist", "Artist A"),
            ("start time", "16.12.00 EEST"),
            ("end time", "16.12.30 EEST"),
            ("playtime", "00:00:30"),
        ]),
    ]
}

#[test]
fn tracks_of_a_history() {
    let rows = history();
    let tracks = parse_serato_tracks_from_data(&rows, Some(at(2023, 3, 30, 16, 4, 53))).unwrap();
    assert_eq!(tracks.len(), 3);
    assert_eq!(tracks[0].artist, "Artist A");
    assert_eq!(tracks[0].title, "Track One");
    assert_eq!(tracks[0].start_time, Some(at(2023, 3, 30, 16, 4, 53)));
    assert_eq!(tracks[0].end_time, Some(at(2023, 3, 30, 16, 9, 1)));
    assert_eq!(tracks[0].play_time, Some(Duration::from_seconds(248)));
    assert_eq!(tracks[1].artist, "Artist B");
    assert_eq!(tracks[1].title, "Track Two");
    assert_eq!(tracks[1].play_time, Some(Duration::from_seconds(179)));
    assert_eq!(tracks[2].artist, "Artist A");
    assert_eq!(tracks[2].title, "Track One");
    assert_eq!(tracks[2].start_time, Some(at(2023, 3, 30, 16, 12, 0)));
    assert_eq!(tracks[2].play_time, Some(Duration::from_seconds(30)));
}

#[test]
fn tracks_of_a_history_without_date_are_on_the_epoch() {
    let rows = history();
    let tracks = parse_serato_tracks_from_data(&rows, None).unwrap();
    assert_eq!(tracks[0].start_time, Some(at(1970, 1, 1, 16, 4, 53)));
}

#[test]
fn tracks_of_a_history_without_rows() {
    assert_eq!(parse_serato_tracks_from_data(&[], None).unwrap().len(), 0);
    let only_info = vec![row(&[("name", "Serato 30.3.2023")])];
    assert_eq!(parse_serato_tracks_from_data(&only_info, None).unwrap().len(), 0);
}

#[test]
fn serato_csv_playlist() {
    let rows = history();
    let playlist = read_serato_csv("/music/serato.csv", "serato".to_string(), &rows).unwrap();
    assert_eq!(playlist.file_format, FileFormat::Csv);
    assert_eq!(playlist.file, "/music/serato.csv");
    assert_eq!(playlist.name, "Serato 30.3.2023");
    assert_eq!(playlist.playlist_type, PlaylistType::Serato);
    assert_eq!(playlist.tracks.len(), 3);
    assert_eq!(playlist.date, Some(at(2023, 3, 30, 16, 4, 53)));
    assert_eq!(playlist.total_duration, Some(Duration::from_seconds(248 + 179 + 30)));
    assert_eq!(playlist.max_artist_length, 8);
    assert_eq!(playlist.max_title_length, 9);
    assert_eq!(playlist.max_playtime_length, 4);
}

#[test]
fn serato_playlist_takes_name_and_date_from_the_file_where_the_history_has_none() {
    let rows = vec![
        row(&[("name", ""), ("artist", "")]),
        row(&[("name", "Track"), ("artist", "Artist")]),
    ];
    let playlist = read_serato_csv("set-2020.12.20.csv", "set-2020.12.20".to_string(), &rows).unwrap();
    assert_eq!(playlist.name, "set-2020.12.20");
    assert_eq!(playlist.date, Some(at(2020, 12, 20, 0, 0, 0)));
    assert_eq!(playlist.tracks.len(), 1);
    assert_eq!(playlist.tracks[0].start_time, None);
    assert_eq!(playlist.total_duration, None);
    assert_eq!(playlist.max_playtime_length, 0);
}

#[test]
fn serato_tracks_are_played_on_the_date_from_the_file_name() {
    let rows = vec![
        row(&[("artist", ""), ("name", ""), ("start time", "")]),
        row(&[("artist", "A"), ("name", "T"), ("start time", "20.00.00 EET")]),
    ];
    let header = HeaderMap::new(strings(&["artist", "name", "start time"]));
    let playlist =
        read_serato_txt("set 10.01.2019.txt", "set 10.01.2019".to_string(), &header, &rows).unwrap();
    assert_eq!(playlist.name, "set 10.01.2019");
    assert_eq!(playlist.date, Some(at(2019, 1, 10, 0, 0, 0)));
    assert_eq!(playlist.tracks.len(), 1);
    assert_eq!(playlist.tracks[0].start_time, Some(at(2019, 1, 10, 20, 0, 0)));

    let playlist = read_serato_csv("set 10.01.2019.csv", "set 10.01.2019".to_string(), &rows).unwrap();
    assert_eq!(playlist.date, Some(at(2019, 1, 10, 0, 0, 0)));
    assert_eq!(playlist.tracks[0].start_time, Some(at(2019, 1, 10, 20, 0, 0)));

    // A date in the name that the history gives counts in the same way.
    let rows = vec![
        row(&[("artist", ""), ("name", "Club Night 24.12.2020")]),
        row(&[("artist", "A"), ("name", "T"), ("end time", "21.30.00 EET")]),
    ];
    let playlist = read_serato_csv("set 10.01.2019.csv", "set 10.01.2019".to_string(), &rows).unwrap();
    assert_eq!(playlist.date, Some(at(2020, 12, 24, 0, 0, 0)));
    assert_eq!(playlist.tracks[0].end_time, Some(at(2020, 12, 24, 21, 30, 0)));

    // Without any date the tracks are on the first of January 1970.
    let rows = vec![
        row(&[("artist", ""), ("name", "")]),
        row(&[("artist", "A"), ("name", "T"), ("start time", "20.00.00 EET")]),
    ];
    let playlist = read_serato_csv("set.csv", "set".to_string(), &rows).unwrap();
    assert_eq!(playlist.date, None);
    assert_eq!(playlist.tracks[0].start_time, Some(at(1970, 1, 1, 20, 0, 0)));
}

#[test]
fn serato_txt_playlist_needs_artist_and_name() {
    let rows = history();
    let header = HeaderMap::new(strings(&["name", "artist", "start time", "end time", "playtime"]));
    let playlist = read_serato_txt("serato.txt", "serato".to_string(), &header, &rows).unwrap();
    assert_eq!(playlist.file_format, FileFormat::Txt);
    assert_eq!(playlist.name, "Serato 30.3.2023");
    assert_eq!(playlist.playlist_type, PlaylistType::Serato);
    assert_eq!(playlist.tracks.len(), 3);
    assert_eq!(playlist.date, Some(at(2023, 3, 30, 16, 4, 53)));

    let header = HeaderMap::new(strings(&["name", "start time"]));
    let error = read_serato_txt("serato.txt", "serato".to_string(), &header, &rows).unwrap_err();
    assert!(matches!(error, PlaylistError::MissingRequiredField { .. }));
    assert_eq!(error.message(), "Serato TXT missing required field: 'artist'");
    let header = HeaderMap::new(strings(&["artist"]));
    let error = read_serato_txt("serato.txt", "serato".to_string(), &header, &rows).unwrap_err();
    assert_eq!(error.message(), "Serato TXT missing required field: 'name'");
}

#[test]
fn serato_playlist_without_rows() {
    let playlist = read_serato_csv("serato.csv", "serato".to_string(), &[]).unwrap();
    assert_eq!(playlist.name, "serato");
    assert_eq!(playlist.date, None);
    assert_eq!(playlist.tracks.len(), 0);
    assert_eq!(playlist.total_duration, None);
    assert_eq!(playlist.max_artist_length, 0);
    assert_eq!(playlist.max_title_length, 0);
    assert_eq!(playlist.max_playtime_length, 0);
}
