//! The playlist: the normalized result of reading one file.

use crate::error::{PlaylistError, PlaylistErrorView};
use crate::fields::{header_map, missing_field, require_fields, row_of, HeaderMap, Row};
use crate::formatted::{
    formatted_playlist, is_formatted_header, read_formatted_csv, ARTIST_FIELD, TITLE_FIELD,
};
use crate::rekordbox::{read_rekordbox_txt, rekordbox_rows_playlist};
use crate::serato::{
    first_cell, first_cell_chars, fixed_width_rows, is_divider, is_divider_chars,
    read_serato_csv, read_serato_txt, read_serato_txt_lines, row_views, serato_playlist,
};
use crate::text::{
    from_chars, lines, lines_chars, split, split_chars, to_chars, trim_all, trim_chars, views,
};
use crate::time::{DateTime, Duration};
use crate::track::{track_views, Track, TrackView};
use crate::types::{outcome, FileFormat, PlaylistType};
use crate::utils::{playlist_format, playlist_format_of};
use crate::utils::{
    get_max_artist_length, get_max_playtime_length, get_max_title_length, max_artist_len,
    max_playtime_len, max_title_len, total_fits, total_playtime, try_total_playtime,
};
use vstd::prelude::*;

verus! {

/// The tracks of one playlist file in the order in which they were played,
/// with what the file says of the session and what follows from the tracks.
#[derive(Debug)]
pub struct Playlist {
    /// The start of the session.
    pub date: Option<DateTime>,
    pub file_format: FileFormat,
    /// The path of the file that was read.
    pub file: String,
    pub name: String,
    pub playlist_type: PlaylistType,
    /// The sum of the play times; none where it is zero.
    pub total_duration: Option<Duration>,
    pub tracks: Vec<Track>,
    /// The number of characters of the longest artist name.
    pub max_artist_length: usize,
    /// The number of characters of the longest title.
    pub max_title_length: usize,
    /// The number of characters of the longest play time as text.
    pub max_playtime_length: usize,
}

/// What a file says of its playlist, before anything is derived.
pub struct PlaylistView {
    pub date: Option<DateTime>,
    pub file_format: FileFormat,
    pub file: Seq<char>,
    pub name: Seq<char>,
    pub playlist_type: PlaylistType,
    pub tracks: Seq<TrackView>,
}

impl View for Playlist {
    type V = PlaylistView;

    open spec fn view(&self) -> PlaylistView {
        PlaylistView {
            date: self.date,
            file_format: self.file_format,
            file: self.file@,
            name: self.name@,
            playlist_type: self.playlist_type,
            tracks: track_views(self.tracks@),
        }
    }
}

impl Playlist {
    /// Whether the derived fields say what follows from the tracks: the
    /// total is the sum of the play times, and the three widths are those of
    /// the longest artist, title and play time.
    pub open spec fn wf(&self) -> bool {
        &&& total_fits(track_views(self.tracks@))
        &&& self.total_duration == total_playtime(track_views(self.tracks@))
        &&& self.max_artist_length == max_artist_len(track_views(self.tracks@))
        &&& self.max_title_length == max_title_len(track_views(self.tracks@))
        &&& self.max_playtime_length == max_playtime_len(track_views(self.tracks@))
    }

    /// The playlist of the given tracks, with its total and widths. The one
    /// error is that the play times add up to more than 64 bits hold.
    pub fn assemble(
        date: Option<DateTime>,
        file_format: FileFormat,
        file: String,
        name: String,
        playlist_type: PlaylistType,
        tracks: Vec<Track>,
    ) -> (res: Result<Playlist, PlaylistError>)
        ensures
            says(
                res,
                assembled(date, file_format, file@, name@, playlist_type, track_views(tracks@)),
            ),
    {
        let total_duration = match try_total_playtime(tracks.as_slice()) {
            Ok(total) => total,
            Err(error) => {
                return Err(error);
            },
        };
        let max_artist_length = get_max_artist_length(tracks.as_slice());
        let max_title_length = get_max_title_length(tracks.as_slice());
        let max_playtime_length = get_max_playtime_length(tracks.as_slice());
        Ok(
            Playlist {
                date,
                file_format,
                file,
                name,
                playlist_type,
                total_duration,
                tracks,
                max_artist_length,
                max_title_length,
                max_playtime_length,
            },
        )
    }
}

/// Whether the outcome of reading is the expected one: the playlist that
/// was expected, with its derived fields, or the error that was expected.
pub open spec fn says(
    res: Result<Playlist, PlaylistError>,
    expected: Result<PlaylistView, PlaylistErrorView>,
) -> bool {
    match res {
        Ok(playlist) => playlist.wf() && expected == Ok::<PlaylistView, PlaylistErrorView>(
            playlist@,
        ),
        Err(error) => expected == Err::<PlaylistView, PlaylistErrorView>(error@),
    }
}

/// The playlist of the given tracks, or the error that their play times
/// add up to more than 64 bits hold.
pub open spec fn assembled(
    date: Option<DateTime>,
    file_format: FileFormat,
    file: Seq<char>,
    name: Seq<char>,
    playlist_type: PlaylistType,
    tracks: Seq<TrackView>,
) -> Result<PlaylistView, PlaylistErrorView> {
    if total_fits(tracks) {
        Ok(PlaylistView { date, file_format, file, name, playlist_type, tracks })
    } else {
        Err(PlaylistErrorView::DurationOverflow)
    }
}

/// A vendor's way of laying out a playlist in a file of one format.
#[derive(Debug, Clone, Copy, PartialEq, Eq, Structural)]
pub enum Dialect {
    /// A Serato history as comma-separated values.
    SeratoCsv,
    /// A Serato history as text in columns of fixed width.
    SeratoTxt,
    /// A Rekordbox playlist as text with tabs.
    RekordboxTxt,
    /// A file that is already in this library's own layout.
    Formatted,
}

/// The error that the dialect `dialect` lacks one of two fields, if it does.
pub open spec fn required(
    header: Map<Seq<char>, int>,
    dialect: Dialect,
    label: Seq<char>,
    first: Seq<char>,
    second: Seq<char>,
) -> Result<Dialect, PlaylistErrorView> {
    match missing_field(header, first, second) {
        Some(field) => Err(PlaylistErrorView::MissingRequiredField { dialect: label, field }),
        None => Ok(dialect),
    }
}

/// The dialect of a file, told by its format and the names of its columns.
/// A delimited file is a formatted one where it has the columns of artists
/// and titles that such a file is written with, and else a Serato history,
/// which needs the columns `name` and `artist`. A
/// text file with a column `name` is a Serato history, which needs `artist`
/// too; one with a column `#` is a Rekordbox playlist, which needs `Artist`
/// and `Track Title`; any other is of no known dialect.
pub open spec fn detected(file_format: FileFormat, header: Map<Seq<char>, int>) -> Result<
    Dialect,
    PlaylistErrorView,
> {
    match file_format {
        FileFormat::Csv => if is_formatted_header(header) {
            Ok(Dialect::Formatted)
        } else {
            required(header, Dialect::SeratoCsv, "Serato CSV"@, "name"@, "artist"@)
        },
        FileFormat::Txt => if header.contains_key("name"@) {
            required(header, Dialect::SeratoTxt, "Serato TXT"@, "artist"@, "name"@)
        } else if header.contains_key("#"@) {
            required(header, Dialect::RekordboxTxt, "Rekordbox TXT"@, "Artist"@, "Track Title"@)
        } else {
            Err(PlaylistErrorView::UnrecognizedDialect)
        },
    }
}

/// The playlist of the rows of a file of the given dialect.
pub open spec fn dialect_playlist(
    dialect: Dialect,
    file: Seq<char>,
    name: Seq<char>,
    rows: Seq<Map<Seq<char>, Seq<char>>>,
) -> Result<PlaylistView, PlaylistErrorView> {
    match dialect {
        Dialect::SeratoCsv => serato_playlist(FileFormat::Csv, file, name, rows),
        Dialect::SeratoTxt => serato_playlist(FileFormat::Txt, file, name, rows),
        Dialect::RekordboxTxt => rekordbox_rows_playlist(file, name, rows),
        Dialect::Formatted => formatted_playlist(file, name, rows),
    }
}

/// The playlist of a file of the given format with the given header and
/// rows: that of its dialect, or the error that it is of none.
pub open spec fn rows_playlist(
    file_format: FileFormat,
    file: Seq<char>,
    name: Seq<char>,
    header: Map<Seq<char>, int>,
    rows: Seq<Map<Seq<char>, Seq<char>>>,
) -> Result<PlaylistView, PlaylistErrorView> {
    match detected(file_format, header) {
        Ok(dialect) => dialect_playlist(dialect, file, name, rows),
        Err(error) => Err(error),
    }
}

/// Tells the dialect of a file by its format and the names of its columns.
/// Each header has one answer: a dialect, or the error that a required field
/// is missing or that the header is of no known dialect.
pub fn detect_dialect(file_format: FileFormat, header: &HeaderMap) -> (res: Result<
    Dialect,
    PlaylistError,
>)
    ensures
        outcome(res) == detected(file_format, header@),
{
    match file_format {
        FileFormat::Csv => {
            if header.contains_key(ARTIST_FIELD) && header.contains_key(TITLE_FIELD) {
                Ok(Dialect::Formatted)
            } else {
                match require_fields(header, "Serato CSV", "name", "artist") {
                    Ok(_) => Ok(Dialect::SeratoCsv),
                    Err(error) => Err(error),
                }
            }
        },
        FileFormat::Txt => {
            if header.contains_key("name") {
                match require_fields(header, "Serato TXT", "artist", "name") {
                    Ok(_) => Ok(Dialect::SeratoTxt),
                    Err(error) => Err(error),
                }
            } else if header.contains_key("#") {
                match require_fields(header, "Rekordbox TXT", "Artist", "Track Title") {
                    Ok(_) => Ok(Dialect::RekordboxTxt),
                    Err(error) => Err(error),
                }
            } else {
                Err(PlaylistError::UnrecognizedDialect)
            }
        },
    }
}

/// The playlist of a file of the format `file_format` with the header
/// `header` and the rows `rows`. `name` is the name that comes from the
/// file.
pub fn read_rows(
    file_format: FileFormat,
    file: &str,
    name: String,
    header: &HeaderMap,
    rows: &[Row],
) -> (res: Result<Playlist, PlaylistError>)
    ensures
        says(res, rows_playlist(file_format, file@, name@, header@, row_views(rows@))),
{
    match detect_dialect(file_format, header) {
        Ok(Dialect::SeratoCsv) => read_serato_csv(file, name, rows),
        Ok(Dialect::SeratoTxt) => read_serato_txt(file, name, header, rows),
        Ok(Dialect::RekordboxTxt) => read_rekordbox_txt(file, name, header, rows),
        Ok(Dialect::Formatted) => read_formatted_csv(file, name, rows),
        Err(error) => Err(error),
    }
}

/// The cells of a line of text: its pieces between tabs, trimmed.
pub open spec fn tab_cells(line: Seq<char>) -> Seq<Seq<char>> {
    trim_all(split(line, '\t'))
}

/// The lines of a text, each as its cells between tabs.
pub open spec fn text_cells(text: Seq<char>) -> Seq<Seq<Seq<char>>> {
    Seq::new(lines(text).len(), |i: int| tab_cells(lines(text)[i]))
}

/// Whether the lines are those of an export in columns of fixed width: the
/// line after the header is a divider of dashes.
pub open spec fn is_fixed_width(cells: Seq<Seq<Seq<char>>>) -> bool {
    cells.len() > 1 && is_divider(first_cell(cells[1]))
}

/// The lines of a text file, each as its cells: the cells between tabs and,
/// for an export in columns of fixed width, the cells of its columns.
pub open spec fn txt_lines(text: Seq<char>) -> Seq<Seq<Seq<char>>> {
    if is_fixed_width(text_cells(text)) {
        fixed_width_rows(text_cells(text))
    } else {
        text_cells(text)
    }
}

/// The column names that the first line gives; none without a line.
pub open spec fn header_names(lines: Seq<Seq<Seq<char>>>) -> Seq<Seq<char>> {
    if lines.len() > 0 {
        lines[0]
    } else {
        Seq::empty()
    }
}

/// The rows of the lines after the first, under the column names of the
/// first.
pub open spec fn line_rows(lines: Seq<Seq<Seq<char>>>) -> Seq<Map<Seq<char>, Seq<char>>> {
    Seq::new(
        if lines.len() > 0 {
            (lines.len() - 1) as nat
        } else {
            0
        },
        |i: int| row_of(lines[0], lines[i + 1]),
    )
}

/// The playlist of a text file with the text `text`.
pub open spec fn txt_playlist(file: Seq<char>, name: Seq<char>, text: Seq<char>) -> Result<
    PlaylistView,
    PlaylistErrorView,
> {
    rows_playlist(
        FileFormat::Txt,
        file,
        name,
        header_map(header_names(txt_lines(text))),
        line_rows(txt_lines(text)),
    )
}

/// The rows of the records of a delimited file that could be read, under the
/// column names `header`.
pub open spec fn record_rows(
    header: Seq<Seq<char>>,
    records: Seq<Option<Seq<Seq<char>>>>,
) -> Seq<Map<Seq<char>, Seq<char>>>
    decreases records.len(),
{
    if records.len() == 0 {
        Seq::empty()
    } else {
        match records.last() {
            Some(cells) => record_rows(header, records.drop_last()).push(row_of(header, cells)),
            None => record_rows(header, records.drop_last()),
        }
    }
}

/// The playlist of a delimited file with the given header and records.
pub open spec fn records_playlist(
    file: Seq<char>,
    name: Seq<char>,
    header: Seq<Seq<char>>,
    records: Seq<Option<Seq<Seq<char>>>>,
) -> Result<PlaylistView, PlaylistErrorView> {
    rows_playlist(FileFormat::Csv, file, name, header_map(header), record_rows(header, records))
}

/// What `encoding_rs_io::DecodeReaderBytes` makes of the bytes of a file
/// when all of it is read into a string: the text, or the message of the
/// error that reading ends in.
pub uninterp spec fn decoded_text(data: Seq<u8>) -> Result<Seq<char>, Seq<char>>;

/// What a `csv::Reader` finds in the bytes of a file: the fields of the
/// header that `Reader::headers` returns and, for each item of
/// `Reader::records`, the fields of the record or `None` for an error; or
/// the message of the error that `Reader::headers` returns.
pub uninterp spec fn csv_table(data: Seq<u8>) -> Result<
    (Seq<Seq<char>>, Seq<Option<Seq<Seq<char>>>>),
    Seq<char>,
>;

/// A decoded text or the message of an error, as sequences of characters.
pub open spec fn text_outcome(res: Result<String, String>) -> Result<Seq<char>, Seq<char>> {
    match res {
        Ok(text) => Ok(text@),
        Err(message) => Err(message@),
    }
}

/// A header with its records or the message of an error, as sequences of
/// characters.
pub open spec fn table_outcome(
    res: Result<(Vec<String>, Vec<Option<Vec<String>>>), String>,
) -> Result<(Seq<Seq<char>>, Seq<Option<Seq<Seq<char>>>>), Seq<char>> {
    match res {
        Ok(table) => Ok((table.0.deep_view(), table.1.deep_view())),
        Err(message) => Err(message@),
    }
}

/// Reads the bytes through `encoding_rs_io::DecodeReaderBytes::new` into a
/// string with `std::io::Read::read_to_string`, and turns an error into its
/// message. The contract gives the outcome the name `decoded_text` and
/// claims nothing else of it.
#[verifier::external_body]
pub(crate) fn decode_text(data: &[u8]) -> (res: Result<String, String>)
    ensures
        text_outcome(res) == decoded_text(data@),
{
    let mut decoder = encoding_rs_io::DecodeReaderBytes::new(data);
    let mut text = String::new();
    match std::io::Read::read_to_string(&mut decoder, &mut text) {
        Ok(_) => Ok(text),
        Err(error) => Err(error.to_string()),
    }
}

/// Reads the bytes with `csv::Reader::from_reader`, takes the header from
/// `Reader::headers` and each item of `Reader::records`, and copies their
/// fields; an error of the header becomes its message, a record that is an
/// error becomes `None`. The contract gives the outcome the name
/// `csv_table` and claims nothing else of it.
#[verifier::external_body]
pub(crate) fn read_csv_table(data: &[u8]) -> (res: Result<
    (Vec<String>, Vec<Option<Vec<String>>>),
    String,
>)
    ensures
        table_outcome(res) == csv_table(data@),
{
    let mut reader = csv::Reader::from_reader(data);
    let header: Vec<String> = match reader.headers() {
        Ok(fields) => fields.iter().map(|field| field.to_owned()).collect(),
        Err(error) => return Err(error.to_string()),
    };
    let records = reader.records().map(
        |item| item.ok().map(|record| record.iter().map(|field| field.to_owned()).collect()),
    ).collect();
    Ok((header, records))
}

/// The cells of a line of text.
pub fn tab_cells_of(line: &[char]) -> (res: Vec<String>)
    ensures
        res.deep_view() == tab_cells(line@),
{
    let pieces = split_chars(line, '\t');
    let mut cells: Vec<String> = Vec::new();
    let mut i: usize = 0;
    while i < pieces.len()
        invariant
            i <= pieces.len(),
            views(pieces@) == split(line@, '\t'),
            cells.deep_view() =~= tab_cells(line@).take(i as int),
        decreases pieces.len() - i,
    {
        let trimmed = trim_chars(pieces[i].as_slice());
        let cell = from_chars(trimmed.as_slice());
        let ghost before = cells.deep_view();
        cells.push(cell);
        proof {
            assert(cells.deep_view() =~= before.push(cell@));
        }
        i += 1;
    }
    cells
}

/// A copy of a list of strings.
pub fn copy_strings(list: &Vec<String>) -> (res: Vec<String>)
    ensures
        res.deep_view() == list.deep_view(),
{
    let mut out: Vec<String> = Vec::new();
    let mut i: usize = 0;
    while i < list.len()
        invariant
            i <= list.len(),
            out.deep_view() =~= list.deep_view().take(i as int),
        decreases list.len() - i,
    {
        let item = list[i].clone();
        let ghost before = out.deep_view();
        out.push(item);
        proof {
            assert(out.deep_view() =~= before.push(item@));
        }
        i += 1;
    }
    out
}

/// The rows of the records that could be read, under the column names
/// `header`.
pub fn map_track_data(header: &Vec<String>, records: &Vec<Option<Vec<String>>>) -> (res: Vec<Row>)
    ensures
        row_views(res@) == record_rows(header.deep_view(), records.deep_view()),
{
    let ghost all = records.deep_view();
    let mut rows: Vec<Row> = Vec::new();
    let mut i: usize = 0;
    while i < records.len()
        invariant
            i <= records.len(),
            all == records.deep_view(),
            row_views(rows@) == record_rows(header.deep_view(), all.take(i as int)),
        decreases records.len() - i,
    {
        proof {
            let upto = all.take(i + 1);
            assert(upto.drop_last() =~= all.take(i as int));
        }
        match &records[i] {
            Some(cells) => {
                let row = Row::from_cells(header, cells);
                rows.push(row);
            },
            None => {},
        }
        i += 1;
    }
    proof {
        assert(all.take(records.len() as int) =~= all);
    }
    rows
}

/// The rows of the lines after the first, under the column names of the
/// first.
pub fn rows_of_lines(lines: &Vec<Vec<String>>) -> (res: Vec<Row>)
    ensures
        row_views(res@) == line_rows(lines.deep_view()),
{
    let mut rows: Vec<Row> = Vec::new();
    if lines.len() == 0 {
        return rows;
    }
    let mut i: usize = 1;
    while i < lines.len()
        invariant
            1 <= i <= lines.len(),
            row_views(rows@) =~= line_rows(lines.deep_view()).take(i - 1),
        decreases lines.len() - i,
    {
        let row = Row::from_cells(&lines[0], &lines[i]);
        let ghost before = row_views(rows@);
        rows.push(row);
        proof {
            assert(row_views(rows@) =~= before.push(row@));
        }
        i += 1;
    }
    rows
}

impl Playlist {
    /// The lines of a text file, each as its cells. The cells are the pieces
    /// between tabs; where the second line is a divider of dashes, the file
    /// is an export in columns of fixed width and the cells are those of its
    /// columns.
    pub fn read_txt_lines(text: &str) -> (res: Vec<Vec<String>>)
        ensures
            res.deep_view() == txt_lines(text@),
    {
        let chars = to_chars(text);
        let line_list = lines_chars(chars.as_slice());
        let mut cells: Vec<Vec<String>> = Vec::new();
        let mut i: usize = 0;
        while i < line_list.len()
            invariant
                i <= line_list.len(),
                views(line_list@) == lines(text@),
                cells.deep_view() =~= text_cells(text@).take(i as int),
            decreases line_list.len() - i,
        {
            let line = tab_cells_of(line_list[i].as_slice());
            let ghost before = cells.deep_view();
            cells.push(line);
            proof {
                assert(cells.deep_view() =~= before.push(line.deep_view()));
            }
            i += 1;
        }
        proof {
            assert(cells.deep_view() == text_cells(text@));
        }
        if cells.len() > 1 {
            let second = first_cell_chars(&cells[1]);
            if is_divider_chars(second.as_slice()) {
                return read_serato_txt_lines(cells);
            }
        }
        cells
    }

    /// The playlist of a text file with the text `text`. The first line
    /// gives the column names, each further line a row. `name` is the name
    /// that comes from the file.
    pub fn read_txt_text(file: &str, name: String, text: &str) -> (res: Result<
        Playlist,
        PlaylistError,
    >)
        ensures
            says(res, txt_playlist(file@, name@, text@)),
    {
        let lines = Playlist::read_txt_lines(text);
        let names = if lines.len() > 0 {
            copy_strings(&lines[0])
        } else {
            let empty: Vec<String> = Vec::new();
            empty
        };
        let header = HeaderMap::new(names);
        let rows = rows_of_lines(&lines);
        read_rows(FileFormat::Txt, file, name, &header, rows.as_slice())
    }

    /// The playlist of a delimited file with the header `header` and the
    /// records `records`, of which those that could not be read are `None`
    /// and give no row. `name` is the name that comes from the file.
    pub fn read_csv_records(
        file: &str,
        name: String,
        header: Vec<String>,
        records: &Vec<Option<Vec<String>>>,
    ) -> (res: Result<Playlist, PlaylistError>)
        ensures
            says(res, records_playlist(file@, name@, header.deep_view(), records.deep_view())),
    {
        let rows = map_track_data(&header, records);
        let header_map = HeaderMap::new(header);
        read_rows(FileFormat::Csv, file, name, &header_map, rows.as_slice())
    }

    /// The playlist of a text file with the bytes `data`, in UTF-8 or, with
    /// a byte order mark, in UTF-16.
    pub fn read_txt(file: &str, name: String, data: &[u8]) -> (res: Result<Playlist, PlaylistError>)
        ensures
            says(
                res,
                match decoded_text(data@) {
                    Ok(text) => txt_playlist(file@, name@, text),
                    Err(message) => Err(PlaylistErrorView::Decode { message }),
                },
            ),
    {
        match decode_text(data) {
            Ok(text) => Playlist::read_txt_text(file, name, text.as_str()),
            Err(message) => Err(PlaylistError::Decode { message }),
        }
    }

    /// The playlist of a delimited file with the bytes `data`.
    pub fn read_csv(file: &str, name: String, data: &[u8]) -> (res: Result<Playlist, PlaylistError>)
        ensures
            says(
                res,
                match csv_table(data@) {
                    Ok(table) => records_playlist(file@, name@, table.0, table.1),
                    Err(message) => Err(PlaylistErrorView::Csv { message }),
                },
            ),
    {
        match read_csv_table(data) {
            Ok(table) => {
                let (header, records) = table;
                Playlist::read_csv_records(file, name, header, &records)
            },
            Err(message) => Err(PlaylistError::Csv { message }),
        }
    }

    /// The playlist of the file `file` with the bytes `data`. The extension
    /// tells the format of the file, and `name` is the name of the file
    /// without its extension.
    pub fn new(file: &str, name: String, extension: Option<&str>, data: &[u8]) -> (res: Result<
        Playlist,
        PlaylistError,
    >)
        ensures
            says(
                res,
                match playlist_format_of(
                    file@,
                    match extension {
                        Some(word) => Some(word@),
                        None => None,
                    },
                ) {
                    Ok(FileFormat::Csv) => match csv_table(data@) {
                        Ok(table) => records_playlist(file@, name@, table.0, table.1),
                        Err(message) => Err(PlaylistErrorView::Csv { message }),
                    },
                    Ok(FileFormat::Txt) => match decoded_text(data@) {
                        Ok(text) => txt_playlist(file@, name@, text),
                        Err(message) => Err(PlaylistErrorView::Decode { message }),
                    },
                    Err(error) => Err(error),
                },
            ),
    {
        match playlist_format(file, extension) {
            Ok(FileFormat::Csv) => Playlist::read_csv(file, name, data),
            Ok(FileFormat::Txt) => Playlist::read_txt(file, name, data),
            Err(error) => Err(error),
        }
    }
}

/// The format that files of a dialect have.
pub open spec fn format_of(dialect: Dialect) -> FileFormat {
    match dialect {
        Dialect::SeratoCsv => FileFormat::Csv,
        Dialect::Formatted => FileFormat::Csv,
        Dialect::SeratoTxt => FileFormat::Txt,
        Dialect::RekordboxTxt => FileFormat::Txt,
    }
}

/// Whether the header is one that files of the dialect have: it has the
/// columns that the dialect is told by and those that it needs, and it is
/// not the header of a dialect that goes before.
pub open spec fn fits(dialect: Dialect, header: Map<Seq<char>, int>) -> bool {
    match dialect {
        Dialect::Formatted => is_formatted_header(header),
        Dialect::SeratoCsv => !is_formatted_header(header) && header.contains_key("name"@)
            && header.contains_key("artist"@),
        Dialect::SeratoTxt => header.contains_key("name"@) && header.contains_key("artist"@),
        Dialect::RekordboxTxt => !header.contains_key("name"@) && header.contains_key("#"@)
            && header.contains_key("Artist"@) && header.contains_key("Track Title"@),
    }
}

/// Detection never picks a wrong dialect. The dialect that is detected is
/// one of the file's format whose header the file has, and it is the only
/// such dialect; where none is detected, no dialect of the format fits the
/// header, and the error is that of a missing field or of an unknown
/// dialect.
pub proof fn lemma_detected_dialect_fits(file_format: FileFormat, header: Map<Seq<char>, int>)
    ensures
        match detected(file_format, header) {
            Ok(dialect) => {
                &&& format_of(dialect) == file_format
                &&& fits(dialect, header)
                &&& forall|other: Dialect|
                    format_of(other) == file_format && fits(other, header) ==> other == dialect
            },
            Err(error) => {
                &&& forall|other: Dialect| format_of(other) == file_format ==> !fits(other, header)
                &&& (error is MissingRequiredField || error is UnrecognizedDialect)
            },
        },
{
}

/// The kind of playlist that files of a dialect give.
pub open spec fn playlist_type_of(dialect: Dialect) -> PlaylistType {
    match dialect {
        Dialect::SeratoCsv => PlaylistType::Serato,
        Dialect::SeratoTxt => PlaylistType::Serato,
        Dialect::RekordboxTxt => PlaylistType::Rekordbox,
        Dialect::Formatted => PlaylistType::Formatted,
    }
}

/// A file is read as what it is detected to be. Where a dialect is
/// detected, the playlist is of the kind of that dialect, of the format of
/// the file and of that file. Reading the rows fails for a Serato history
/// alone, and only where its play times add up to more than 64 bits hold.
/// Where no dialect is detected, the error of the detection is the outcome.
pub proof fn lemma_read_as_detected(
    file_format: FileFormat,
    file: Seq<char>,
    name: Seq<char>,
    header: Map<Seq<char>, int>,
    rows: Seq<Map<Seq<char>, Seq<char>>>,
)
    ensures
        match detected(file_format, header) {
            Ok(dialect) => match rows_playlist(file_format, file, name, header, rows) {
                Ok(playlist) => {
                    &&& playlist.playlist_type == playlist_type_of(dialect)
                    &&& playlist.file_format == file_format
                    &&& playlist.file == file
                },
                Err(error) => {
                    &&& error == PlaylistErrorView::DurationOverflow
                    &&& playlist_type_of(dialect) == PlaylistType::Serato
                },
            },
            Err(error) => rows_playlist(file_format, file, name, header, rows) == Err::<
                PlaylistView,
                PlaylistErrorView,
            >(error),
        },
{
}

/// A file without rows gives a playlist without tracks and without a total
/// play time, whatever its dialect.
pub proof fn lemma_no_rows_no_tracks(dialect: Dialect, file: Seq<char>, name: Seq<char>)
    ensures
        dialect_playlist(dialect, file, name, Seq::empty()) is Ok,
        dialect_playlist(dialect, file, name, Seq::empty())->Ok_0.tracks.len() == 0,
        total_playtime(dialect_playlist(dialect, file, name, Seq::empty())->Ok_0.tracks) is None,
{
}

/// A text of at most one line has no rows: its one line is the header.
pub proof fn lemma_header_only_text(text: Seq<char>)
    requires
        lines(text).len() <= 1,
    ensures
        line_rows(txt_lines(text)).len() == 0,
{
}

/// A delimited file without records has no rows.
pub proof fn lemma_header_only_records(header: Seq<Seq<char>>)
    ensures
        record_rows(header, Seq::empty()).len() == 0,
{
}

} // verus!
