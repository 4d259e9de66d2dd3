//! The dialect of files that are already in this library's own layout.

use crate::error::{PlaylistError, PlaylistErrorView};
use crate::fields::Row;
use crate::playlist::{says, Playlist, PlaylistView};
use crate::serato::{field_or_empty, row_views};
use crate::track::{all_untimed, track_views, Track, TrackView};
use crate::types::{FileFormat, PlaylistType};
use crate::utils::lemma_total_of_none;
use vstd::prelude::*;

verus! {

/// The name of the column of artists in a formatted file.
pub const ARTIST_FIELD: &'static str = "artist";

/// The name of the column of titles in a formatted file.
pub const TITLE_FIELD: &'static str = "title";

/// Whether the header is that of a formatted file: it has the column of
/// artists and the column of titles.
pub open spec fn is_formatted_header(header: Map<Seq<char>, int>) -> bool {
    header.contains_key(ARTIST_FIELD@) && header.contains_key(TITLE_FIELD@)
}

/// The track of a row: its artist and title, without times. A row that
/// leaves one of the two empty gives no track.
pub open spec fn formatted_track(row: Map<Seq<char>, Seq<char>>) -> Option<TrackView> {
    let artist = field_or_empty(row, ARTIST_FIELD@);
    let title = field_or_empty(row, TITLE_FIELD@);
    if artist.len() > 0 && title.len() > 0 {
        Some(TrackView { artist, title, start_time: None, end_time: None, play_time: None })
    } else {
        None
    }
}

/// The tracks of the rows that give one, in the order of the rows.
pub open spec fn formatted_tracks(rows: Seq<Map<Seq<char>, Seq<char>>>) -> Seq<TrackView>
    decreases rows.len(),
{
    if rows.len() == 0 {
        Seq::empty()
    } else {
        match formatted_track(rows.last()) {
            Some(track) => formatted_tracks(rows.drop_last()).push(track),
            None => formatted_tracks(rows.drop_last()),
        }
    }
}

/// The playlist of a formatted file: it has the name that comes from the
/// file and no date. Reading it never fails.
pub open spec fn formatted_playlist(
    file: Seq<char>,
    name: Seq<char>,
    rows: Seq<Map<Seq<char>, Seq<char>>>,
) -> Result<PlaylistView, PlaylistErrorView> {
    Ok(
        PlaylistView {
            date: None,
            file_format: FileFormat::Csv,
            file,
            name,
            playlist_type: PlaylistType::Formatted,
            tracks: formatted_tracks(rows),
        },
    )
}

/// The tracks of a formatted file carry no times.
pub proof fn lemma_formatted_tracks_untimed(rows: Seq<Map<Seq<char>, Seq<char>>>)
    ensures
        all_untimed(formatted_tracks(rows)),
    decreases rows.len(),
{
    if rows.len() > 0 {
        lemma_formatted_tracks_untimed(rows.drop_last());
    }
}

/// The tracks of the rows of a formatted file.
pub fn parse_formatted_tracks_from_data(data: &[Row]) -> (res: Vec<Track>)
    ensures
        track_views(res@) == formatted_tracks(row_views(data@)),
{
    let ghost rows = row_views(data@);
    let mut tracks: Vec<Track> = Vec::new();
    let mut i: usize = 0;
    while i < data.len()
        invariant
            i <= data.len(),
            rows == row_views(data@),
            track_views(tracks@) == formatted_tracks(rows.take(i as int)),
        decreases data.len() - i,
    {
        proof {
            let upto = rows.take(i + 1);
            assert(upto.drop_last() =~= rows.take(i as int));
        }
        let artist = match data[i].get(ARTIST_FIELD) {
            Some(text) => text.clone(),
            None => String::new(),
        };
        let title = match data[i].get(TITLE_FIELD) {
            Some(text) => text.clone(),
            None => String::new(),
        };
        if artist.as_str().unicode_len() > 0 && title.as_str().unicode_len() > 0 {
            let track = Track::new(artist, title);
            tracks.push(track);
        }
        i += 1;
    }
    proof {
        assert(rows.take(data.len() as int) =~= rows);
    }
    tracks
}

/// The playlist of a formatted CSV file. `name` is the name of the
/// playlist, which comes from the file.
pub fn read_formatted_csv(file: &str, name: String, data: &[Row]) -> (res: Result<
    Playlist,
    PlaylistError,
>)
    ensures
        says(res, formatted_playlist(file@, name@, row_views(data@))),
{
    let tracks = parse_formatted_tracks_from_data(data);
    proof {
        lemma_formatted_tracks_untimed(row_views(data@));
        lemma_total_of_none(track_views(tracks@));
    }
    Playlist::assemble(
        None,
        FileFormat::Csv,
        file.to_owned(),
        name,
        PlaylistType::Formatted,
        tracks,
    )
}

} // verus!
