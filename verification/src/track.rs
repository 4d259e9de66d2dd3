//! One played track, and the merging of a track that a history lists in
//! several consecutive rows.

use crate::time::{DateTime, Duration};
use core::ops::{Add, AddAssign};
use vstd::prelude::*;
use vstd::std_specs::cmp::PartialEqSpecImpl;
use vstd::std_specs::ops::AddSpecImpl;
use vstd::string::StringExecFns;

verus! {

/// One played track.
#[derive(Debug)]
pub struct Track {
    pub artist: String,
    pub title: String,
    pub start_time: Option<DateTime>,
    pub end_time: Option<DateTime>,
    pub play_time: Option<Duration>,
}

/// What a `Track` says, its texts as sequences of characters.
pub struct TrackView {
    pub artist: Seq<char>,
    pub title: Seq<char>,
    pub start_time: Option<DateTime>,
    pub end_time: Option<DateTime>,
    pub play_time: Option<Duration>,
}

impl View for Track {
    type V = TrackView;

    open spec fn view(&self) -> TrackView {
        TrackView {
            artist: self.artist@,
            title: self.title@,
            start_time: self.start_time,
            end_time: self.end_time,
            play_time: self.play_time,
        }
    }
}

/// What a sequence of tracks says.
pub open spec fn track_views(tracks: Seq<Track>) -> Seq<TrackView> {
    Seq::new(tracks.len(), |i: int| tracks[i]@)
}

/// Whether two tracks are the same play: they agree in artist and title.
/// The times do not count.
pub open spec fn same_track(a: TrackView, b: TrackView) -> bool {
    a.artist == b.artist && a.title == b.title
}

/// Whether the sum of two play times can be counted in 64 bits. A missing
/// play time adds nothing.
pub open spec fn sum_fits(a: Option<Duration>, b: Option<Duration>) -> bool {
    a is Some && b is Some ==> i64::MIN <= a->0.seconds + b->0.seconds <= i64::MAX
}

/// The sum of two play times. A missing play time adds nothing, and two
/// missing ones give none.
pub open spec fn sum_of(a: Option<Duration>, b: Option<Duration>) -> Option<Duration> {
    match (a, b) {
        (Some(x), Some(y)) => Some(Duration { seconds: (x.seconds + y.seconds) as i64 }),
        (Some(x), None) => Some(x),
        (None, _) => b,
    }
}

/// The track `last` after a further row `next` of the same play: the play
/// time of the row is added and its end time taken over.
pub open spec fn extended(last: TrackView, next: TrackView) -> TrackView {
    TrackView {
        artist: last.artist,
        title: last.title,
        start_time: last.start_time,
        end_time: next.end_time,
        play_time: sum_of(last.play_time, next.play_time),
    }
}

/// The tracks with each run of consecutive rows of one play merged into
/// one track, in the order of the rows. Each row is held against the last
/// track so far: the same play extends it, another play follows it. `None`
/// where a play time cannot be counted in 64 bits.
pub open spec fn merged(rows: Seq<TrackView>) -> Option<Seq<TrackView>>
    decreases rows.len(),
{
    if rows.len() == 0 {
        Some(Seq::empty())
    } else {
        match merged(rows.drop_last()) {
            None => None,
            Some(tracks) => {
                let next = rows.last();
                if tracks.len() > 0 && same_track(tracks.last(), next) {
                    if sum_fits(tracks.last().play_time, next.play_time) {
                        Some(tracks.drop_last().push(extended(tracks.last(), next)))
                    } else {
                        None
                    }
                } else {
                    Some(tracks.push(next))
                }
            },
        }
    }
}

/// Whether no row is the same play as the row before it.
pub open spec fn no_repeats(rows: Seq<TrackView>) -> bool {
    forall|i: int| 0 < i < rows.len() ==> !same_track(rows[i - 1], #[trigger] rows[i])
}

/// Merging changes nothing where no two adjacent rows are the same play:
/// the result is the input, in length and content.
pub proof fn lemma_merge_without_repeats(rows: Seq<TrackView>)
    requires
        no_repeats(rows),
    ensures
        merged(rows) == Some(rows),
    decreases rows.len(),
{
    if rows.len() > 0 {
        let before = rows.drop_last();
        assert(no_repeats(before));
        lemma_merge_without_repeats(before);
    }
}

/// Whether a track carries no time: no start, no end and no play time.
pub open spec fn is_untimed(track: TrackView) -> bool {
    track.start_time is None && track.end_time is None && track.play_time is None
}

/// Whether none of the tracks carries a time.
pub open spec fn all_untimed(tracks: Seq<TrackView>) -> bool {
    forall|i: int| 0 <= i < tracks.len() ==> is_untimed(#[trigger] tracks[i])
}

/// The rows without those that are the same play as the row before them.
pub open spec fn deduplicated(rows: Seq<TrackView>) -> Seq<TrackView>
    decreases rows.len(),
{
    if rows.len() == 0 {
        Seq::empty()
    } else {
        let before = deduplicated(rows.drop_last());
        if before.len() > 0 && same_track(before.last(), rows.last()) {
            before
        } else {
            before.push(rows.last())
        }
    }
}

/// Rows without times always merge, and merging them is dropping those
/// that repeat the play of the row before them.
pub proof fn lemma_merge_of_untimed(rows: Seq<TrackView>)
    requires
        all_untimed(rows),
    ensures
        merged(rows) == Some(deduplicated(rows)),
        all_untimed(deduplicated(rows)),
    decreases rows.len(),
{
    if rows.len() > 0 {
        let before = rows.drop_last();
        assert(all_untimed(before)) by {
            assert forall|i: int| 0 <= i < before.len() implies is_untimed(
                #[trigger] before[i],
            ) by {
                assert(before[i] == rows[i]);
            }
        }
        lemma_merge_of_untimed(before);
        let tracks = deduplicated(before);
        let next = rows.last();
        assert(is_untimed(next));
        if tracks.len() > 0 && same_track(tracks.last(), next) {
            let last = tracks.last();
            assert(is_untimed(last));
            assert(extended(last, next) == last);
            assert(tracks.drop_last().push(last) =~= tracks);
        }
    }
}

/// The number of rows that are the same play as the row before them.
pub open spec fn repeats(rows: Seq<TrackView>) -> nat
    decreases rows.len(),
{
    if rows.len() <= 1 {
        0
    } else {
        repeats(rows.drop_last()) + if same_track(rows[rows.len() - 2], rows.last()) {
            1nat
        } else {
            0nat
        }
    }
}

/// What merging makes of rows: no track is the same play as the track
/// before it, the last track is the play of the last row, and there is one
/// track less than rows for each row that repeats the play of the row before
/// it.
pub proof fn lemma_merge_collapses_repeats(rows: Seq<TrackView>)
    requires
        merged(rows) is Some,
    ensures
        no_repeats(merged(rows)->0),
        merged(rows)->0.len() + repeats(rows) == rows.len(),
        rows.len() > 0 ==> merged(rows)->0.len() > 0 && same_track(
            merged(rows)->0.last(),
            rows.last(),
        ),
    decreases rows.len(),
{
    if rows.len() > 0 {
        lemma_merge_collapses_repeats(rows.drop_last());
        assert(no_repeats(merged(rows)->0));
    }
}

/// The number of the track that row `i` is merged into: the number of rows
/// before it that do not repeat the play of the row before them.
pub open spec fn track_index(rows: Seq<TrackView>, i: int) -> int {
    i - repeats(rows.take(i + 1))
}

/// The play time of the rows that are merged into track `j`: the sum of
/// their play times, and none where none of them has one.
pub open spec fn run_play_time(rows: Seq<TrackView>, j: int) -> Option<Duration>
    decreases rows.len(),
{
    if rows.len() == 0 {
        None
    } else {
        let before = run_play_time(rows.drop_last(), j);
        if track_index(rows, rows.len() - 1) == j {
            sum_of(before, rows.last().play_time)
        } else {
            before
        }
    }
}

/// No row is merged into a track behind the last: such a track has no play
/// time.
pub proof fn lemma_run_behind_the_last(rows: Seq<TrackView>, j: int)
    requires
        forall|i: int| 0 <= i < rows.len() ==> track_index(rows, i) < j,
    ensures
        run_play_time(rows, j) is None,
    decreases rows.len(),
{
    if rows.len() > 0 {
        let before = rows.drop_last();
        assert forall|i: int| 0 <= i < before.len() implies track_index(before, i) < j by {
            assert(before.take(i + 1) =~= rows.take(i + 1));
            assert(track_index(rows, i) < j);
        }
        lemma_run_behind_the_last(before, j);
        assert(track_index(rows, rows.len() - 1) < j);
    }
}

/// Merging run by run. Each row is merged into the track of its number,
/// which is the play of the row, and the play time of each track is that of
/// the rows merged into it.
pub proof fn lemma_merge_by_runs(rows: Seq<TrackView>)
    requires
        merged(rows) is Some,
    ensures
        forall|i: int|
            0 <= i < rows.len() ==> 0 <= #[trigger] track_index(rows, i) < merged(rows)->0.len()
                && same_track(merged(rows)->0[track_index(rows, i)], rows[i]),
        forall|j: int|
            0 <= j < merged(rows)->0.len() ==> (#[trigger] merged(rows)->0[j]).play_time
                == run_play_time(rows, j),
    decreases rows.len(),
{
    if rows.len() > 0 {
        let n = rows.len() as int;
        let before = rows.drop_last();
        let next = rows.last();
        lemma_merge_by_runs(before);
        lemma_merge_collapses_repeats(before);
        lemma_merge_collapses_repeats(rows);
        let old_tracks = merged(before)->0;
        let tracks = merged(rows)->0;
        assert(rows.take(n) =~= rows);
        assert(track_index(rows, n - 1) == tracks.len() - 1);
        assert forall|i: int| 0 <= i < n - 1 implies track_index(rows, i) == track_index(
            before,
            i,
        ) by {
            assert(before.take(i + 1) =~= rows.take(i + 1));
        }
        if old_tracks.len() > 0 && same_track(old_tracks.last(), next) {
            assert(tracks == old_tracks.drop_last().push(extended(old_tracks.last(), next)));
            assert forall|i: int| 0 <= i < rows.len() implies 0 <= #[trigger] track_index(rows, i)
                < tracks.len() && same_track(tracks[track_index(rows, i)], rows[i]) by {
                if i < n - 1 {
                    let k = track_index(before, i);
                    assert(same_track(old_tracks[k], before[i]));
                    assert(before[i] == rows[i]);
                }
            }
            assert forall|j: int| 0 <= j < tracks.len() implies (#[trigger] tracks[j]).play_time
                == run_play_time(rows, j) by {
                if j < tracks.len() - 1 {
                    assert(tracks[j] == old_tracks[j]);
                }
            }
        } else {
            assert(tracks == old_tracks.push(next));
            assert forall|i: int| 0 <= i < rows.len() implies 0 <= #[trigger] track_index(rows, i)
                < tracks.len() && same_track(tracks[track_index(rows, i)], rows[i]) by {
                if i < n - 1 {
                    let k = track_index(before, i);
                    assert(same_track(old_tracks[k], before[i]));
                    assert(before[i] == rows[i]);
                }
            }
            assert(run_play_time(before, old_tracks.len() as int) is None) by {
                assert forall|i: int| 0 <= i < before.len() implies track_index(before, i)
                    < old_tracks.len() by {
                    assert(0 <= track_index(before, i) < old_tracks.len());
                }
                lemma_run_behind_the_last(before, old_tracks.len() as int);
            }
            assert forall|j: int| 0 <= j < tracks.len() implies (#[trigger] tracks[j]).play_time
                == run_play_time(rows, j) by {
                if j < tracks.len() - 1 {
                    assert(tracks[j] == old_tracks[j]);
                }
            }
        }
    }
}

/// Merging twice is merging once.
pub proof fn lemma_merge_is_idempotent(rows: Seq<TrackView>)
    requires
        merged(rows) is Some,
    ensures
        merged(merged(rows)->0) == merged(rows),
{
    lemma_merge_collapses_repeats(rows);
    lemma_merge_without_repeats(merged(rows)->0);
}

impl Track {
    /// A track with artist and title only.
    pub fn new(artist: String, title: String) -> (res: Track)
        ensures
            res@ == (TrackView {
                artist: artist@,
                title: title@,
                start_time: None,
                end_time: None,
                play_time: None,
            }),
    {
        Track { artist, title, start_time: None, end_time: None, play_time: None }
    }

    /// A track with its times.
    pub fn new_with_time(
        artist: String,
        title: String,
        start_time: Option<DateTime>,
        end_time: Option<DateTime>,
        play_time: Option<Duration>,
    ) -> (res: Track)
        ensures
            res@ == (TrackView { artist: artist@, title: title@, start_time, end_time, play_time }),
    {
        Track { artist, title, start_time, end_time, play_time }
    }

    /// The number of characters of the artist's name.
    pub fn artist_length(&self) -> (res: usize)
        ensures
            res == self@.artist.len(),
    {
        self.artist.as_str().unicode_len()
    }

    /// The number of characters of the title.
    pub fn title_length(&self) -> (res: usize)
        ensures
            res == self@.title.len(),
    {
        self.title.as_str().unicode_len()
    }

    /// The track as a line of text: artist, a dash, title.
    pub fn display(&self) -> (res: String)
        ensures
            res@ == self@.artist + " - "@ + self@.title,
    {
        let mut line = self.artist.clone();
        line.append(" - ");
        line.append(self.title.as_str());
        line
    }

    /// This track after a further row `next` of the same play, where the
    /// play times can be added.
    pub fn extended_by(self, next: &Track) -> (res: Option<Track>)
        ensures
            match res {
                Some(track) => sum_fits(self.play_time, next.play_time) && track@ == extended(
                    self@,
                    next@,
                ),
                None => !sum_fits(self.play_time, next.play_time),
            },
    {
        let play_time = match (self.play_time, next.play_time) {
            (Some(x), Some(y)) => {
                match x.checked_add(y) {
                    Some(sum) => Some(sum),
                    None => {
                        return None;
                    },
                }
            },
            (Some(x), None) => Some(x),
            (None, other) => other,
        };
        Some(
            Track {
                artist: self.artist,
                title: self.title,
                start_time: self.start_time,
                end_time: next.end_time,
                play_time,
            },
        )
    }
}

impl Clone for Track {
    fn clone(&self) -> (res: Track)
        ensures
            res@ == self@,
    {
        Track {
            artist: self.artist.clone(),
            title: self.title.clone(),
            start_time: self.start_time,
            end_time: self.end_time,
            play_time: self.play_time,
        }
    }
}

impl PartialEq for Track {
    fn eq(&self, other: &Self) -> (res: bool) {
        self.artist == other.artist && self.title == other.title
    }
}

impl PartialEqSpecImpl for Track {
    open spec fn obeys_eq_spec() -> bool {
        true
    }

    open spec fn eq_spec(&self, other: &Self) -> bool {
        same_track(self@, other@)
    }
}

impl Add<Option<Duration>> for Track {
    type Output = Track;

    fn add(self, duration: Option<Duration>) -> (res: Track) {
        let play_time = match self.play_time {
            Some(time) => match duration {
                None => Some(time),
                Some(d) => Some(Duration { seconds: time.seconds + d.seconds }),
            },
            None => duration,
        };
        Track {
            artist: self.artist,
            title: self.title,
            start_time: self.start_time,
            end_time: self.end_time,
            play_time,
        }
    }
}

impl AddSpecImpl<Option<Duration>> for Track {
    open spec fn obeys_add_spec() -> bool {
        true
    }

    open spec fn add_req(self, duration: Option<Duration>) -> bool {
        sum_fits(self.play_time, duration)
    }

    open spec fn add_spec(self, duration: Option<Duration>) -> Track {
        Track {
            artist: self.artist,
            title: self.title,
            start_time: self.start_time,
            end_time: self.end_time,
            play_time: sum_of(self.play_time, duration),
        }
    }
}

impl Add<Duration> for Track {
    type Output = Track;

    fn add(self, duration: Duration) -> (res: Track) {
        let play_time = match self.play_time {
            Some(time) => Some(Duration { seconds: time.seconds + duration.seconds }),
            None => Some(duration),
        };
        Track {
            artist: self.artist,
            title: self.title,
            start_time: self.start_time,
            end_time: self.end_time,
            play_time,
        }
    }
}

impl AddSpecImpl<Duration> for Track {
    open spec fn obeys_add_spec() -> bool {
        true
    }

    open spec fn add_req(self, duration: Duration) -> bool {
        sum_fits(self.play_time, Some(duration))
    }

    open spec fn add_spec(self, duration: Duration) -> Track {
        Track {
            artist: self.artist,
            title: self.title,
            start_time: self.start_time,
            end_time: self.end_time,
            play_time: sum_of(self.play_time, Some(duration)),
        }
    }
}

impl AddAssign<Duration> for Track {
    fn add_assign(&mut self, duration: Duration)
        requires
            sum_fits(old(self).play_time, Some(duration)),
        ensures
            final(self).play_time == sum_of(old(self).play_time, Some(duration)),
            final(self).artist == old(self).artist,
            final(self).title == old(self).title,
            final(self).start_time == old(self).start_time,
            final(self).end_time == old(self).end_time,
    {
        self.play_time = match self.play_time {
            Some(time) => Some(Duration { seconds: time.seconds + duration.seconds }),
            None => Some(duration),
        };
    }
}

impl AddAssign<Option<Duration>> for Track {
    fn add_assign(&mut self, duration: Option<Duration>)
        requires
            sum_fits(old(self).play_time, duration),
        ensures
            final(self).play_time == sum_of(old(self).play_time, duration),
            final(self).artist == old(self).artist,
            final(self).title == old(self).title,
            final(self).start_time == old(self).start_time,
            final(self).end_time == old(self).end_time,
    {
        if let Some(d) = duration {
            self.play_time = match self.play_time {
                Some(time) => Some(Duration { seconds: time.seconds + d.seconds }),
                None => Some(d),
            };
        }
    }
}

/// Merges each run of consecutive rows of one play into one track: the
/// play times of the run are added up and the end time is that of its last
/// row. Only adjacent rows are merged, and the order stays. `None` where a
/// sum cannot be counted in 64 bits.
pub fn merge_consecutive(rows: Vec<Track>) -> (res: Option<Vec<Track>>)
    ensures
        match res {
            Some(tracks) => merged(track_views(rows@)) == Some(track_views(tracks@)),
            None => merged(track_views(rows@)) is None,
        },
{
    let mut tracks: Vec<Track> = Vec::new();
    let ghost all = track_views(rows@);
    let mut i: usize = 0;
    while i < rows.len()
        invariant
            i <= rows.len(),
            all == track_views(rows@),
            merged(all.take(i as int)) == Some(track_views(tracks@)),
        decreases rows.len() - i,
    {
        let next = &rows[i];
        proof {
            let upto = all.take(i + 1);
            assert(upto.drop_last() =~= all.take(i as int));
        }
        let repeat = tracks.len() > 0 && tracks[tracks.len() - 1] == *next;
        if repeat {
            let last = tracks.pop().unwrap();
            match last.extended_by(next) {
                Some(track) => {
                    tracks.push(track);
                },
                None => {
                    proof {
                        lemma_merged_fails_on(all, i + 1);
                    }
                    return None;
                },
            }
        } else {
            let track = next.clone();
            tracks.push(track);
        }
        i += 1;
    }
    proof {
        assert(all.take(rows.len() as int) =~= all);
    }
    Some(tracks)
}

/// Where the merging of a prefix fails, the merging of the whole fails.
pub proof fn lemma_merged_fails_on(rows: Seq<TrackView>, k: int)
    requires
        0 <= k <= rows.len(),
        merged(rows.take(k)) is None,
    ensures
        merged(rows) is None,
    decreases rows.len() - k,
{
    if k < rows.len() {
        assert(rows.take(k + 1).drop_last() =~= rows.take(k));
        lemma_merged_fails_on(rows, k + 1);
    } else {
        assert(rows.take(k) =~= rows);
    }
}

} // verus!
