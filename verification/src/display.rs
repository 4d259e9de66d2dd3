//! A playlist as text: the lines that are printed and the records that are
//! written to a file.

use crate::formatted::{ARTIST_FIELD, TITLE_FIELD};
use crate::playlist::Playlist;
use crate::text::{filling, from_chars, to_chars};
use crate::time::{DateTime, Duration};
use crate::track::{track_views, Track, TrackView};
use crate::utils::{decimal, duration_chars, duration_text, push_decimal};
use vstd::prelude::*;

verus! {

/// `text`, filled up at its end with spaces to `width` characters. A longer
/// text stays as it is.
pub open spec fn pad_right(text: Seq<char>, width: int) -> Seq<char> {
    text + filling(' ', width - text.len())
}

/// `text`, filled up at its start with `fill` to `width` characters. A
/// longer text stays as it is.
pub open spec fn pad_left(text: Seq<char>, width: int, fill: char) -> Seq<char> {
    filling(fill, width - text.len()) + text
}

/// The number of decimal digits of `count`.
pub open spec fn index_width_of(count: nat) -> nat {
    decimal(count).len()
}

/// The line of a track in a numbered list: its number, filled up with zeros
/// to `width` digits, a colon, and the track.
pub open spec fn numbered_text(number: nat, width: int, track: TrackView) -> Seq<char> {
    pad_left(decimal(number), width, '0') + ": "@ + track.artist + " - "@ + track.title
}

/// The width of the column of play times in a table: that of the longest
/// play time, but at least that of the heading; none where no track has a
/// play time to show.
pub open spec fn playtime_width_of(max_playtime_length: int) -> int {
    if max_playtime_length > 0 {
        if max_playtime_length > 8 {
            max_playtime_length
        } else {
            8
        }
    } else {
        0
    }
}

/// The widths of the columns of a table.
pub struct Widths {
    pub index: usize,
    pub artist: usize,
    pub title: usize,
    pub playtime: usize,
}

/// The heading of a table with the given widths. The column of play times
/// has a heading only where it has a width.
pub open spec fn header_text(widths: Widths) -> Seq<char> {
    let start = pad_right("#"@, widths.index as int) + "   "@ + pad_right(
        "ARTIST"@,
        widths.artist as int,
    ) + "   "@ + pad_right("TITLE"@, widths.title as int);
    if widths.playtime > 0 {
        start + "   "@ + pad_left("PLAYTIME"@, widths.playtime as int, ' ')
    } else {
        start
    }
}

/// The cells of a row of a table, each filled up to the width of its
/// column: the number of the track with leading zeros, artist and title with
/// spaces behind them, and the play time with spaces before it.
pub struct PrettyRow {
    pub index: String,
    pub artist: String,
    pub title: String,
    pub playtime: String,
}

/// The characters of `text`, filled up at the end with spaces.
pub fn pad_right_chars(text: &[char], width: usize) -> (res: Vec<char>)
    ensures
        res@ == pad_right(text@, width as int),
{
    let mut out: Vec<char> = Vec::new();
    let mut i: usize = 0;
    while i < text.len()
        invariant
            i <= text.len(),
            out@ == text@.take(i as int),
        decreases text.len() - i,
    {
        out.push(text[i]);
        i += 1;
    }
    let mut n: usize = text.len();
    while n < width
        invariant
            text.len() <= n,
            n <= width || n == text.len(),
            out@ =~= text@ + filling(' ', n - text.len()),
        decreases width - n,
    {
        out.push(' ');
        n += 1;
    }
    out
}

/// The characters of `text`, filled up at the start with `fill`.
pub fn pad_left_chars(text: &[char], width: usize, fill: char) -> (res: Vec<char>)
    ensures
        res@ == pad_left(text@, width as int, fill),
{
    let mut out: Vec<char> = Vec::new();
    let mut n: usize = text.len();
    while n < width
        invariant
            text.len() <= n,
            n <= width || n == text.len(),
            out@ =~= filling(fill, n - text.len()),
        decreases width - n,
    {
        out.push(fill);
        n += 1;
    }
    let ghost start = out@;
    let mut i: usize = 0;
    while i < text.len()
        invariant
            i <= text.len(),
            out@ == start + text@.take(i as int),
        decreases text.len() - i,
    {
        out.push(text[i]);
        i += 1;
    }
    out
}

/// Appends the characters of `more`.
pub fn push_all(out: &mut Vec<char>, more: &[char])
    ensures
        final(out)@ == old(out)@ + more@,
{
    let mut i: usize = 0;
    while i < more.len()
        invariant
            i <= more.len(),
            out@ == old(out)@ + more@.take(i as int),
        decreases more.len() - i,
    {
        out.push(more[i]);
        i += 1;
    }
}

/// The number of decimal digits of `count`: the width of the column of
/// track numbers.
pub fn index_width(count: usize) -> (res: usize)
    ensures
        res == index_width_of(count as nat),
{
    let mut digits: Vec<char> = Vec::new();
    push_decimal(count as u64, &mut digits);
    digits.len()
}

/// The line of a track in a numbered list.
pub fn numbered_line(number: usize, width: usize, track: &Track) -> (res: String)
    ensures
        res@ == numbered_text(number as nat, width as int, track@),
{
    let mut digits: Vec<char> = Vec::new();
    push_decimal(number as u64, &mut digits);
    let mut line = pad_left_chars(digits.as_slice(), width, '0');
    let colon = to_chars(": ");
    push_all(&mut line, colon.as_slice());
    let artist = to_chars(track.artist.as_str());
    push_all(&mut line, artist.as_slice());
    let dash = to_chars(" - ");
    push_all(&mut line, dash.as_slice());
    let title = to_chars(track.title.as_str());
    push_all(&mut line, title.as_slice());
    from_chars(line.as_slice())
}

impl Playlist {
    /// The widths of the columns of the table of this playlist.
    pub fn widths(&self) -> (res: Widths)
        ensures
            res.index == index_width_of(self.tracks@.len()),
            res.artist == self.max_artist_length,
            res.title == self.max_title_length,
            res.playtime == playtime_width_of(self.max_playtime_length as int),
    {
        Widths {
            index: index_width(self.tracks.len()),
            artist: self.max_artist_length,
            title: self.max_title_length,
            playtime: if self.max_playtime_length > 0 {
                if self.max_playtime_length > 8 {
                    self.max_playtime_length
                } else {
                    8
                }
            } else {
                0
            },
        }
    }

    /// The mean play time of the tracks in whole seconds, cut off towards
    /// zero; none where the playlist has no total play time or no track.
    pub fn average_playtime(&self) -> (res: Option<Duration>)
        ensures
            res == match self.total_duration {
                Some(total) => if self.tracks@.len() > 0 {
                    Some(
                        Duration {
                            seconds: if total.seconds >= 0 {
                                (total.seconds as int / self.tracks@.len() as int) as i64
                            } else {
                                (-((-total.seconds) as int / self.tracks@.len() as int)) as i64
                            },
                        },
                    )
                } else {
                    None::<Duration>
                },
                None => None::<Duration>,
            },
    {
        match self.total_duration {
            Some(total) => {
                if self.tracks.len() == 0 {
                    return None;
                }
                let count = self.tracks.len() as i128;
                let mean = (total.seconds as i128) / count;
                Some(Duration { seconds: mean as i64 })
            },
            None => None,
        }
    }
}

/// The heading of a table with the given widths.
pub fn pretty_header(widths: &Widths) -> (res: String)
    ensures
        res@ == header_text(*widths),
{
    let number = to_chars("#");
    let artist = to_chars("ARTIST");
    let title = to_chars("TITLE");
    let playtime = to_chars("PLAYTIME");
    let gap = to_chars("   ");
    let mut line = pad_right_chars(number.as_slice(), widths.index);
    push_all(&mut line, gap.as_slice());
    let cell = pad_right_chars(artist.as_slice(), widths.artist);
    push_all(&mut line, cell.as_slice());
    push_all(&mut line, gap.as_slice());
    let cell = pad_right_chars(title.as_slice(), widths.title);
    push_all(&mut line, cell.as_slice());
    if widths.playtime > 0 {
        push_all(&mut line, gap.as_slice());
        let cell = pad_left_chars(playtime.as_slice(), widths.playtime, ' ');
        push_all(&mut line, cell.as_slice());
    }
    from_chars(line.as_slice())
}

/// The line of dashes under a heading of `width` characters.
pub fn pretty_divider(width: usize) -> (res: String)
    ensures
        res@ == filling('-', width as int),
{
    let none: Vec<char> = Vec::new();
    let line = pad_right_chars(none.as_slice(), 0);
    let dashes = pad_left_chars(line.as_slice(), width, '-');
    from_chars(dashes.as_slice())
}

/// The cells of the row of track number `number` in a table with the given
/// widths.
pub fn pretty_row(number: usize, track: &Track, widths: &Widths) -> (res: PrettyRow)
    ensures
        res.index@ == pad_left(decimal(number as nat), widths.index as int, '0'),
        res.artist@ == pad_right(track@.artist, widths.artist as int),
        res.title@ == pad_right(track@.title, widths.title as int),
        res.playtime@ == pad_left(
            match track@.play_time {
                Some(duration) => duration_text(duration.seconds as int),
                None => Seq::<char>::empty(),
            },
            widths.playtime as int,
            ' ',
        ),
{
    let mut digits: Vec<char> = Vec::new();
    push_decimal(number as u64, &mut digits);
    let index = pad_left_chars(digits.as_slice(), widths.index, '0');
    let artist = pad_right_chars(to_chars(track.artist.as_str()).as_slice(), widths.artist);
    let title = pad_right_chars(to_chars(track.title.as_str()).as_slice(), widths.title);
    let text = match track.play_time {
        Some(duration) => duration_chars(duration),
        None => Vec::new(),
    };
    let playtime = pad_left_chars(text.as_slice(), widths.playtime, ' ');
    PrettyRow {
        index: from_chars(index.as_slice()),
        artist: from_chars(artist.as_slice()),
        title: from_chars(title.as_slice()),
        playtime: from_chars(playtime.as_slice()),
    }
}

/// The decimal digits of `n`, with leading zeros where they are fewer than
/// `width`.
pub open spec fn zero_padded(n: nat, width: int) -> Seq<char> {
    pad_left(decimal(n), width, '0')
}

/// A year in at least four digits. A year before the year 0 has a minus
/// sign and a year after 9999 a plus sign.
pub open spec fn year_text(year: int) -> Seq<char> {
    if year < 0 {
        seq!['-'] + zero_padded((-year) as nat, 4)
    } else if year > 9999 {
        seq!['+'] + zero_padded(year as nat, 4)
    } else {
        zero_padded(year as nat, 4)
    }
}

/// A date and time to the minute, as `YYYY.MM.DD HH:MM`.
pub open spec fn minute_text(time: DateTime) -> Seq<char> {
    year_text(time.date.year as int) + seq!['.'] + zero_padded(time.date.month as nat, 2)
        + seq!['.'] + zero_padded(time.date.day as nat, 2) + seq![' '] + zero_padded(
        time.time.hour as nat,
        2,
    ) + seq![':'] + zero_padded(time.time.minute as nat, 2)
}

/// A date and time as `YYYY.MM.DD HH:MM:SS`.
pub open spec fn timestamp_text(time: DateTime) -> Seq<char> {
    minute_text(time) + seq![':'] + zero_padded(time.time.second as nat, 2)
}

/// A date and time as text, and nothing for none.
pub open spec fn optional_timestamp_text(time: Option<DateTime>) -> Seq<char> {
    match time {
        Some(time) => timestamp_text(time),
        None => Seq::empty(),
    }
}

/// A play time as text, and nothing for none.
pub open spec fn optional_duration_text(duration: Option<Duration>) -> Seq<char> {
    match duration {
        Some(duration) => duration_text(duration.seconds as int),
        None => Seq::empty(),
    }
}

/// The names of the columns of a playlist that is written to a file. The
/// columns of artists and titles have the names that a formatted file is
/// told and read by.
pub open spec fn record_header() -> Seq<Seq<char>> {
    seq![ARTIST_FIELD@, Seq::empty(), TITLE_FIELD@, "playtime"@, "start time"@, "end time"@]
}

/// The record of a track: artist, a dash, title, play time, start and end.
pub open spec fn track_record_of(track: TrackView) -> Seq<Seq<char>> {
    seq![
        track.artist,
        "-"@,
        track.title,
        optional_duration_text(track.play_time),
        optional_timestamp_text(track.start_time),
        optional_timestamp_text(track.end_time),
    ]
}

/// The record that closes a playlist: its total play time in the column of
/// the play times.
pub open spec fn total_record_of(total: Duration) -> Seq<Seq<char>> {
    seq![
        Seq::empty(),
        Seq::empty(),
        Seq::empty(),
        duration_text(total.seconds as int),
        Seq::empty(),
        Seq::empty(),
    ]
}

/// The records of the tracks, one for each.
pub open spec fn track_records_of(tracks: Seq<TrackView>) -> Seq<Seq<Seq<char>>> {
    Seq::new(tracks.len(), |i: int| track_record_of(tracks[i]))
}

/// The records of a playlist that is written to a file: the header, the
/// tracks and, where it has one, the total play time.
pub open spec fn records_of(tracks: Seq<TrackView>, total: Option<Duration>) -> Seq<
    Seq<Seq<char>>,
> {
    seq![record_header()] + track_records_of(tracks) + match total {
        Some(total) => seq![total_record_of(total)],
        None => Seq::empty(),
    }
}

/// Appends the decimal digits of `n`, with leading zeros where they are fewer
/// than `width`.
pub fn push_zero_padded(out: &mut Vec<char>, n: u64, width: usize)
    ensures
        final(out)@ == old(out)@ + zero_padded(n as nat, width as int),
{
    let mut digits: Vec<char> = Vec::new();
    push_decimal(n, &mut digits);
    let padded = pad_left_chars(digits.as_slice(), width, '0');
    push_all(out, padded.as_slice());
}

/// The characters of a date and time to the minute.
pub fn minute_chars(time: DateTime) -> (res: Vec<char>)
    ensures
        res@ == minute_text(time),
{
    let mut out: Vec<char> = Vec::new();
    if time.date.year < 0 {
        out.push('-');
        push_zero_padded(&mut out, (-(time.date.year as i64)) as u64, 4);
    } else if time.date.year > 9999 {
        out.push('+');
        push_zero_padded(&mut out, time.date.year as u64, 4);
    } else {
        push_zero_padded(&mut out, time.date.year as u64, 4);
    }
    out.push('.');
    push_zero_padded(&mut out, time.date.month as u64, 2);
    out.push('.');
    push_zero_padded(&mut out, time.date.day as u64, 2);
    out.push(' ');
    push_zero_padded(&mut out, time.time.hour as u64, 2);
    out.push(':');
    push_zero_padded(&mut out, time.time.minute as u64, 2);
    out
}

/// A date and time to the minute, as `YYYY.MM.DD HH:MM`.
pub fn format_minute(time: DateTime) -> (res: String)
    ensures
        res@ == minute_text(time),
{
    let chars = minute_chars(time);
    from_chars(chars.as_slice())
}

/// A date and time as `YYYY.MM.DD HH:MM:SS`.
pub fn format_timestamp(time: DateTime) -> (res: String)
    ensures
        res@ == timestamp_text(time),
{
    let mut chars = minute_chars(time);
    chars.push(':');
    push_zero_padded(&mut chars, time.time.second as u64, 2);
    from_chars(chars.as_slice())
}

/// A date and time as text, and an empty string for none.
pub fn optional_timestamp(time: Option<DateTime>) -> (res: String)
    ensures
        res@ == optional_timestamp_text(time),
{
    match time {
        Some(time) => format_timestamp(time),
        None => String::new(),
    }
}

/// A play time as text, and an empty string for none.
pub fn optional_duration(duration: Option<Duration>) -> (res: String)
    ensures
        res@ == optional_duration_text(duration),
{
    match duration {
        Some(duration) => {
            let chars = duration_chars(duration);
            from_chars(chars.as_slice())
        },
        None => String::new(),
    }
}

/// The record of a track: artist, a dash, title, play time, start and end.
pub fn track_record(track: &Track) -> (res: Vec<String>)
    ensures
        res.deep_view() == track_record_of(track@),
{
    let mut record: Vec<String> = Vec::new();
    record.push(track.artist.clone());
    record.push("-".to_owned());
    record.push(track.title.clone());
    record.push(optional_duration(track.play_time));
    record.push(optional_timestamp(track.start_time));
    record.push(optional_timestamp(track.end_time));
    record
}

impl Playlist {
    /// The records of this playlist as they are written to a file: the
    /// header, one record for each track and, where the playlist has a total
    /// play time, a last record with it.
    pub fn records(&self) -> (res: Vec<Vec<String>>)
        ensures
            res.deep_view() == records_of(track_views(self.tracks@), self.total_duration),
    {
        let mut header: Vec<String> = Vec::new();
        header.push(ARTIST_FIELD.to_owned());
        header.push(String::new());
        header.push(TITLE_FIELD.to_owned());
        header.push("playtime".to_owned());
        header.push("start time".to_owned());
        header.push("end time".to_owned());
        proof {
            assert(header.deep_view() =~= record_header());
        }
        let mut records: Vec<Vec<String>> = Vec::new();
        records.push(header);
        let ghost tracks = track_views(self.tracks@);
        let mut i: usize = 0;
        while i < self.tracks.len()
            invariant
                i <= self.tracks.len(),
                tracks == track_views(self.tracks@),
                records.deep_view() == seq![record_header()] + track_records_of(tracks).take(
                    i as int,
                ),
            decreases self.tracks.len() - i,
        {
            let record = track_record(&self.tracks[i]);
            let ghost before = records.deep_view();
            records.push(record);
            proof {
                assert(records.deep_view() =~= before.push(record.deep_view()));
            }
            i += 1;
        }
        match self.total_duration {
            Some(total) => {
                let mut last: Vec<String> = Vec::new();
                last.push(String::new());
                last.push(String::new());
                last.push(String::new());
                last.push(optional_duration(Some(total)));
                last.push(String::new());
                last.push(String::new());
                let ghost before = records.deep_view();
                proof {
                    assert(last.deep_view() =~= total_record_of(total));
                }
                records.push(last);
                proof {
                    assert(records.deep_view() =~= before.push(total_record_of(total)));
                }
            },
            None => {
            },
        }
        records
    }
}

} // verus!
