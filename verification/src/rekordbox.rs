//! The Rekordbox dialect: a tab-delimited text export without times.

use crate::error::{PlaylistError, PlaylistErrorView};
use crate::fields::{missing_field, require_fields, HeaderMap, Row};
use crate::playlist::{says, Playlist, PlaylistView};
use crate::serato::{field, row_views, session_date, recover_session_date};
use crate::track::{
    all_untimed, deduplicated, lemma_merge_of_untimed, merge_consecutive, track_views, Track,
    TrackView,
};
use crate::utils::lemma_total_of_none;
use crate::types::{FileFormat, PlaylistType};
use vstd::prelude::*;

verus! {

/// The track of a row: its artist and title, without times. A row that
/// lacks one of the two fields, or has both empty, gives no track.
pub open spec fn rekordbox_track(row: Map<Seq<char>, Seq<char>>) -> Option<TrackView> {
    match (field(row, "Artist"@), field(row, "Track Title"@)) {
        (Some(artist), Some(title)) => if artist.len() == 0 && title.len() == 0 {
            None
        } else {
            Some(TrackView { artist, title, start_time: None, end_time: None, play_time: None })
        },
        _ => None,
    }
}

/// The tracks of the rows that give one, in the order of the rows.
pub open spec fn rekordbox_rows(rows: Seq<Map<Seq<char>, Seq<char>>>) -> Seq<TrackView>
    decreases rows.len(),
{
    if rows.len() == 0 {
        Seq::empty()
    } else {
        match rekordbox_track(rows.last()) {
            Some(track) => rekordbox_rows(rows.drop_last()).push(track),
            None => rekordbox_rows(rows.drop_last()),
        }
    }
}

/// The playlist of the rows of a Rekordbox text export. The date is the
/// one in the name, and consecutive rows of one play are one track. Reading
/// the rows never fails.
pub open spec fn rekordbox_rows_playlist(
    file: Seq<char>,
    name: Seq<char>,
    rows: Seq<Map<Seq<char>, Seq<char>>>,
) -> Result<PlaylistView, PlaylistErrorView> {
    Ok(
        PlaylistView {
            date: session_date(None, name),
            file_format: FileFormat::Txt,
            file,
            name,
            playlist_type: PlaylistType::Rekordbox,
            tracks: deduplicated(rekordbox_rows(rows)),
        },
    )
}

/// The tracks of a Rekordbox export carry no times.
pub proof fn lemma_rekordbox_rows_untimed(rows: Seq<Map<Seq<char>, Seq<char>>>)
    ensures
        all_untimed(rekordbox_rows(rows)),
    decreases rows.len(),
{
    if rows.len() > 0 {
        lemma_rekordbox_rows_untimed(rows.drop_last());
    }
}

/// The playlist of a Rekordbox text export with the given header.
pub open spec fn rekordbox_playlist(
    file: Seq<char>,
    name: Seq<char>,
    header: Map<Seq<char>, int>,
    rows: Seq<Map<Seq<char>, Seq<char>>>,
) -> Result<PlaylistView, PlaylistErrorView> {
    match missing_field(header, "Artist"@, "Track Title"@) {
        Some(field) => Err(
            PlaylistErrorView::MissingRequiredField { dialect: "Rekordbox TXT"@, field },
        ),
        None => rekordbox_rows_playlist(file, name, rows),
    }
}

/// The track of a row, where it gives one.
pub fn rekordbox_track_of(row: &Row) -> (res: Option<Track>)
    ensures
        match res {
            Some(track) => rekordbox_track(row@) == Some(track@),
            None => rekordbox_track(row@) is None,
        },
{
    let artist = match row.get("Artist") {
        Some(text) => text,
        None => {
            return None;
        },
    };
    let title = match row.get("Track Title") {
        Some(text) => text,
        None => {
            return None;
        },
    };
    if artist.as_str().unicode_len() == 0 && title.as_str().unicode_len() == 0 {
        None
    } else {
        Some(Track::new(artist.clone(), title.clone()))
    }
}

/// The playlist of a Rekordbox text export. The header must have the
/// columns `Artist` and `Track Title`. The export gives no times.
pub fn read_rekordbox_txt(
    file: &str,
    name: String,
    header: &HeaderMap,
    playlist_rows: &[Row],
) -> (res: Result<Playlist, PlaylistError>)
    ensures
        says(res, rekordbox_playlist(file@, name@, header@, row_views(playlist_rows@))),
{
    match require_fields(header, "Rekordbox TXT", "Artist", "Track Title") {
        Ok(_) => {},
        Err(error) => {
            return Err(error);
        },
    }
    let date = recover_session_date(None, name.as_str());
    let ghost rows = row_views(playlist_rows@);
    let mut tracks: Vec<Track> = Vec::new();
    let mut i: usize = 0;
    while i < playlist_rows.len()
        invariant
            i <= playlist_rows.len(),
            rows == row_views(playlist_rows@),
            track_views(tracks@) == rekordbox_rows(rows.take(i as int)),
        decreases playlist_rows.len() - i,
    {
        proof {
            let upto = rows.take(i + 1);
            assert(upto.drop_last() =~= rows.take(i as int));
        }
        match rekordbox_track_of(&playlist_rows[i]) {
            Some(track) => {
                tracks.push(track);
            },
            None => {},
        }
        i += 1;
    }
    proof {
        assert(rows.take(playlist_rows.len() as int) =~= rows);
    }
    proof {
        lemma_rekordbox_rows_untimed(rows);
        lemma_merge_of_untimed(rekordbox_rows(rows));
    }
    let tracks = match merge_consecutive(tracks) {
        Some(tracks) => tracks,
        None => {
            // Rows without times always merge.
            return Err(PlaylistError::DurationOverflow);
        },
    };
    proof {
        lemma_total_of_none(track_views(tracks@));
    }
    Playlist::assemble(
        date,
        FileFormat::Txt,
        file.to_owned(),
        name,
        PlaylistType::Rekordbox,
        tracks,
    )
}

} // verus!
