//! The library's text functions held against the same work done with the
//! string functions of std, on generated inputs.

use playlist_formatter::playlist::Playlist;
use playlist_formatter::serato::read_serato_txt_lines;
use playlist_formatter::time::Duration;
use playlist_formatter::track::{merge_consecutive, Track};
use playlist_formatter::types::{FileFormat, OutputFormat};
use playlist_formatter::utils::formatted_duration;

/// A small generator of numbers that gives the same run every time.
struct Numbers(u64);

impl Numbers {
    fn next(&mut self) -> u64 {
        self.0 = self.0.wrapping_mul(6364136223846793005).wrapping_add(1442695040888963407);
        self.0 >> 33
    }

    fn below(&mut self, bound: u64) -> u64 {
        self.next() % bound
    }

    fn pick<'a>(&mut self, items: &[&'a str]) -> &'a str {
        items[self.below(items.len() as u64) as usize]
    }
}

/// The rows of a fixed-width export, computed on bytes with std.
fn rows_with_std(initial_lines: Vec<Vec<String>>) -> Vec<Vec<String>> {
    let header_line: String = initial_lines[0][0].clone();
    let column_names: Vec<String> = header_line
        .replace("     ", "\t")
        .split('\t')
        .filter_map(|s| {
            let v = s.trim();
            if v.is_empty() {
                None
            } else {
                Some(v.to_string())
            }
        })
        .collect();
    let mut column_start_indices: Vec<usize> =
        column_names.iter().filter_map(|field| header_line.find(field)).collect();
    column_start_indices.reverse();
    let mut rows: Vec<Vec<String>> = Vec::new();
    for line in initial_lines {
        if line[0].chars().all(|c| c == '-') {
            continue;
        }
        let mut split_line: Vec<String> = Vec::new();
        let mut remaining_line: String = line[0].to_string();
        for index in &column_start_indices {
            if *index >= remaining_line.len() {
                continue;
            }
            let (string_left, value) = remaining_line.split_at(*index);
            split_line.push(value.trim().to_string());
            remaining_line = string_left.to_string();
        }
        split_line.reverse();
        while split_line.len() < column_names.len() {
            split_line.push(String::new());
        }
        rows.push(split_line);
    }
    rows
}

fn random_line(numbers: &mut Numbers, length: u64) -> String {
    let words = ["a", "b", "name", "artist", " ", "  ", "     ", "      ", "-", "--", "x y", "T1", ""];
    let mut line = String::new();
    while (line.len() as u64) < length {
        line.push_str(numbers.pick(&words));
    }
    line
}

#[test]
fn fixed_width_rows_agree_with_std_on_ascii() {
    let mut numbers = Numbers(7);
    for _ in 0..300 {
        let header_length = numbers.below(60);
        let header = random_line(&mut numbers, header_length).trim().to_string();
        let mut lines = vec![vec![header]];
        for _ in 0..numbers.below(6) {
            let length = numbers.below(70);
            let mut cells = vec![random_line(&mut numbers, length)];
            if numbers.below(4) == 0 {
                cells.push("more".to_string());
            }
            lines.push(cells);
        }
        assert_eq!(read_serato_txt_lines(lines.clone()), rows_with_std(lines.clone()), "{lines:?}");
    }
}

#[test]
fn fixed_width_rows_agree_with_std_on_a_history() {
    let lines: Vec<Vec<String>> = [
        "name                          artist              start time      playtime     deck",
        "------------------------------------------------------------------------------------",
        "Serato 30.3.2023                                  30.03.2023",
        "Track One                     Artist A            16.04.53 EEST   00:03:08     1",
        "Track Two                     Artist B            16.08.01 EEST",
        "Track Three",
        "",
        "A title that is much longer than its column Artist C  16.12.00 EEST   00:01:00     2",
    ]
    .iter()
    .map(|line| vec![line.to_string()])
    .collect();
    assert_eq!(read_serato_txt_lines(lines.clone()), rows_with_std(lines));
}

#[test]
fn text_lines_agree_with_std() {
    let mut numbers = Numbers(11);
    let pieces = ["a", "B c", "\t", "\t\t", " ", "\n", "\r\n", "\n\n", "#", "ä", "日本", "\u{a0}", "x"];
    for _ in 0..300 {
        // A first line that is no divider, so that the text is read by its tabs.
        let mut text = String::from("#\tArtist\n1");
        for _ in 0..numbers.below(20) {
            text.push_str(numbers.pick(&pieces));
        }
        let expected: Vec<Vec<String>> = text
            .lines()
            .map(|line| line.split('\t').map(|cell| cell.trim().to_string()).collect())
            .collect();
        assert_eq!(Playlist::read_txt_lines(&text), expected, "{text:?}");
    }
}

#[test]
fn formats_agree_with_std_lowercase_and_trim() {
    let inputs = [
        "csv", "CSV", "Csv", " csv", "csv\n", "txt", "TXT ", "\ttXt", "xlsx", "XLSX", " XlSx ", "", " ",
        "mp3", "cs v", "csvx", "c", "ｃｓｖ", "ＣＳＶ", "ÇSV", "TXT\u{a0}", "\u{2003}csv", "txt.", "İ",
    ];
    for input in inputs {
        let word = input.to_lowercase();
        let word = word.trim();
        let file_format = match word {
            "csv" => Some(FileFormat::Csv),
            "txt" => Some(FileFormat::Txt),
            _ => None,
        };
        assert_eq!(FileFormat::from_str(input).ok(), file_format, "{input:?}");
        let output_format = match word {
            "csv" => Some(OutputFormat::Csv),
            "txt" => Some(OutputFormat::Txt),
            "xlsx" => Some(OutputFormat::Xlsx),
            _ => None,
        };
        assert_eq!(OutputFormat::from_str(input).ok(), output_format, "{input:?}");
        let message = match word {
            "csv" | "txt" => None,
            "" => Some("Can't convert empty string to file format".to_string()),
            _ => Some(format!("Unsupported file format: '{input}'")),
        };
        assert_eq!(FileFormat::from_str(input).err().map(|error| error.message()), message);
    }
}

#[test]
fn durations_agree_with_std_formatting() {
    let mut numbers = Numbers(3);
    let mut values: Vec<i64> = vec![-1, 0, 1, 59, 60, 61, 3599, 3600, 3601, 86399, 86400, 359999, 360000];
    for _ in 0..500 {
        values.push(numbers.below(400000) as i64);
    }
    for seconds in values {
        let expected = if seconds > 0 {
            if seconds / 60 >= 60 {
                format!("{}:{:02}:{:02}", seconds / 3600, seconds / 60 % 60, seconds % 60)
            } else {
                format!("{}:{:02}", seconds / 60, seconds % 60)
            }
        } else {
            String::new()
        };
        assert_eq!(formatted_duration(Duration::from_seconds(seconds)), expected, "{seconds}");
    }
}

#[test]
fn merge_agrees_with_a_pass_over_the_rows() {
    let mut numbers = Numbers(5);
    for _ in 0..300 {
        let mut rows: Vec<(String, String, Option<i64>)> = Vec::new();
        for _ in 0..numbers.below(12) {
            let artist = numbers.pick(&["A", "B"]).to_string();
            let title = numbers.pick(&["T", "U"]).to_string();
            let seconds = if numbers.below(3) == 0 { None } else { Some(numbers.below(500) as i64) };
            rows.push((artist, title, seconds));
        }
        let mut expected: Vec<(String, String, Option<i64>)> = Vec::new();
        for row in &rows {
            if let Some(last) = expected.last_mut() {
                if last.0 == row.0 && last.1 == row.1 {
                    last.2 = match (last.2, row.2) {
                        (Some(a), Some(b)) => Some(a + b),
                        (Some(a), None) => Some(a),
                        (None, b) => b,
                    };
                    continue;
                }
            }
            expected.push(row.clone());
        }
        let tracks: Vec<Track> = rows
            .iter()
            .map(|row| {
                Track::new_with_time(
                    row.0.clone(),
                    row.1.clone(),
                    None,
                    None,
                    row.2.map(Duration::from_seconds),
                )
            })
            .collect();
        let merged: Vec<(String, String, Option<i64>)> = merge_consecutive(tracks)
            .unwrap()
            .iter()
            .map(|track| {
                (track.artist.clone(), track.title.clone(), track.play_time.map(|time| time.seconds))
            })
            .collect();
        assert_eq!(merged, expected, "{rows:?}");
        // What is merged has the same total and no repeats, and merging it again changes nothing.
        let total: i64 = rows.iter().filter_map(|row| row.2).sum();
        assert_eq!(merged.iter().filter_map(|row| row.2).sum::<i64>(), total);
        assert!(merged.windows(2).all(|pair| pair[0].0 != pair[1].0 || pair[0].1 != pair[1].1));
    }
}
