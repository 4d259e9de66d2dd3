//! Sums and widths over the tracks of a playlist, the text of a duration,
//! the date in a playlist's name, and paths.

use crate::error::{PlaylistError, PlaylistErrorView};
use crate::text::{from_chars, same_chars, to_chars, trim, trim_chars};
use crate::time::{is_calendar_date, Date, DateTime, Duration, Time};
use crate::track::{merged, same_track, track_views, Track, TrackView};
use crate::types::{
    file_format_of, lowercase, lower_char, outcome, output_format_of, FileFormat, OutputFormat,
};
use vstd::prelude::*;
use vstd::string::StringExecFns;

verus! {

/// The seconds of a play time; none where the track has no play time.
pub open spec fn seconds_of(play_time: Option<Duration>) -> int {
    match play_time {
        Some(duration) => duration.seconds as int,
        None => 0,
    }
}

/// The sum of the play times of the tracks in seconds. A track without a
/// play time adds nothing.
pub open spec fn total_seconds(tracks: Seq<TrackView>) -> int
    decreases tracks.len(),
{
    if tracks.len() == 0 {
        0
    } else {
        total_seconds(tracks.drop_last()) + seconds_of(tracks.last().play_time)
    }
}

/// The total play time of the tracks: their sum, and none where the sum is
/// zero. A playlist whose tracks carry no play time has no total.
pub open spec fn total_playtime(tracks: Seq<TrackView>) -> Option<Duration> {
    if total_seconds(tracks) == 0 {
        None
    } else {
        Some(Duration { seconds: total_seconds(tracks) as i64 })
    }
}

/// Whether the sum of the play times can be counted in 64 bits.
pub open spec fn total_fits(tracks: Seq<TrackView>) -> bool {
    i64::MIN <= total_seconds(tracks) <= i64::MAX
}

/// Tracks that all lack a play time have no total play time.
pub proof fn lemma_total_of_none(tracks: Seq<TrackView>)
    requires
        forall|i: int| 0 <= i < tracks.len() ==> tracks[i].play_time is None,
    ensures
        total_seconds(tracks) == 0,
        total_playtime(tracks) is None,
    decreases tracks.len(),
{
    if tracks.len() > 0 {
        lemma_total_of_none(tracks.drop_last());
    }
}

/// Tracks whose play times add up to something other than zero have that
/// sum as their total play time, and one of them has a play time.
pub proof fn lemma_total_of_some(tracks: Seq<TrackView>)
    requires
        total_fits(tracks),
        total_seconds(tracks) != 0,
    ensures
        total_playtime(tracks) == Some(Duration { seconds: total_seconds(tracks) as i64 }),
        total_playtime(tracks)->0.seconds == total_seconds(tracks),
        exists|i: int| 0 <= i < tracks.len() && tracks[i].play_time is Some,
{
    if forall|i: int| 0 <= i < tracks.len() ==> tracks[i].play_time is None {
        lemma_total_of_none(tracks);
    }
}

/// Merging keeps the sum of the play times: the play time of a merged
/// track is the sum of those of its rows.
pub proof fn lemma_merge_keeps_total(rows: Seq<TrackView>)
    requires
        merged(rows) is Some,
    ensures
        total_seconds(merged(rows)->0) == total_seconds(rows),
    decreases rows.len(),
{
    if rows.len() > 0 {
        let before = rows.drop_last();
        let next = rows.last();
        lemma_merge_keeps_total(before);
        let tracks = merged(before)->0;
        let all = merged(rows)->0;
        if tracks.len() > 0 && same_track(tracks.last(), next) {
            assert(all.drop_last() == tracks.drop_last());
        } else {
            assert(all.drop_last() == tracks);
        }
    }
}

/// The sum of the play times in seconds, counted in 128 bits, which hold
/// the sum of any number of play times.
pub fn sum_playtime_seconds(tracks: &[Track]) -> (res: i128)
    ensures
        res == total_seconds(track_views(tracks@)),
{
    let ghost all = track_views(tracks@);
    let mut sum: i128 = 0;
    let mut i: usize = 0;
    while i < tracks.len()
        invariant
            i <= tracks.len(),
            all == track_views(tracks@),
            sum == total_seconds(all.take(i as int)),
            -(i * 0x8000_0000_0000_0000) <= sum <= i * 0x8000_0000_0000_0000,
        decreases tracks.len() - i,
    {
        proof {
            let upto = all.take(i + 1);
            assert(upto.drop_last() =~= all.take(i as int));
            assert((i + 1) * 0x8000_0000_0000_0000 == i * 0x8000_0000_0000_0000
                + 0x8000_0000_0000_0000) by (nonlinear_arith);
            assert((i + 1) * 0x8000_0000_0000_0000 <= 0xffff_ffff_ffff_ffff
                * 0x8000_0000_0000_0000) by (nonlinear_arith)
                requires
                    i + 1 <= 0xffff_ffff_ffff_ffff,
            ;
        }
        match tracks[i].play_time {
            Some(duration) => {
                sum = sum + (duration.seconds as i128);
            },
            None => {},
        }
        i += 1;
    }
    proof {
        assert(all.take(tracks.len() as int) =~= all);
    }
    sum
}

/// The total play time of the tracks, or the error that it cannot be
/// counted in 64 bits.
pub fn try_total_playtime(tracks: &[Track]) -> (res: Result<Option<Duration>, PlaylistError>)
    ensures
        match res {
            Ok(total) => total_fits(track_views(tracks@)) && total == total_playtime(
                track_views(tracks@),
            ),
            Err(error) => !total_fits(track_views(tracks@)) && error@
                == PlaylistErrorView::DurationOverflow,
        },
{
    let sum = sum_playtime_seconds(tracks);
    if sum < (i64::MIN as i128) || sum > (i64::MAX as i128) {
        Err(PlaylistError::DurationOverflow)
    } else if sum == 0 {
        Ok(None)
    } else {
        Ok(Some(Duration { seconds: sum as i64 }))
    }
}

/// The total play time of the tracks; none where they add up to nothing.
pub fn get_total_playtime(tracks: &[Track]) -> (res: Option<Duration>)
    requires
        total_fits(track_views(tracks@)),
    ensures
        res == total_playtime(track_views(tracks@)),
{
    let sum = sum_playtime_seconds(tracks);
    if sum == 0 {
        None
    } else {
        Some(Duration { seconds: sum as i64 })
    }
}

/// The character of a decimal digit.
pub open spec fn digit_char(digit: int) -> char {
    ((48 + digit) as u8) as char
}

/// The decimal digits of `n`, without leading zeros.
pub open spec fn decimal(n: nat) -> Seq<char>
    decreases n,
{
    if n < 10 {
        seq![digit_char(n as int)]
    } else {
        decimal(n / 10).push(digit_char((n % 10) as int))
    }
}

/// The two decimal digits of a number below 100.
pub open spec fn two_digits(n: nat) -> Seq<char> {
    seq![digit_char((n / 10) as int), digit_char((n % 10) as int)]
}

/// A duration as text: hours, minutes and seconds as `H:MM:SS` from one
/// hour on, minutes and seconds as `M:SS` below, and nothing for a
/// duration that is not positive.
pub open spec fn duration_text(seconds: int) -> Seq<char> {
    if seconds <= 0 {
        Seq::empty()
    } else if seconds >= 3600 {
        decimal((seconds / 3600) as nat) + seq![':'] + two_digits((seconds / 60 % 60) as nat)
            + seq![':'] + two_digits((seconds % 60) as nat)
    } else {
        decimal((seconds / 60) as nat) + seq![':'] + two_digits((seconds % 60) as nat)
    }
}

/// The character of the decimal digit `digit`.
pub fn digit(value: u64) -> (res: char)
    requires
        value < 10,
    ensures
        res == digit_char(value as int),
{
    (48u8 + (value as u8)) as char
}

/// Appends the decimal digits of `n`.
pub fn push_decimal(n: u64, out: &mut Vec<char>)
    ensures
        final(out)@ == old(out)@ + decimal(n as nat),
    decreases n,
{
    if n >= 10 {
        push_decimal(n / 10, out);
    }
    out.push(digit(n % 10));
}

/// Appends the two decimal digits of `n`.
pub fn push_two_digits(n: u64, out: &mut Vec<char>)
    requires
        n < 100,
    ensures
        final(out)@ == old(out)@ + two_digits(n as nat),
{
    out.push(digit(n / 10));
    out.push(digit(n % 10));
}

/// The characters of a duration as text.
pub fn duration_chars(duration: Duration) -> (res: Vec<char>)
    ensures
        res@ == duration_text(duration.seconds as int),
{
    let mut out: Vec<char> = Vec::new();
    if duration.seconds <= 0 {
        return out;
    }
    let seconds: u64 = duration.seconds as u64;
    if seconds >= 3600 {
        push_decimal(seconds / 3600, &mut out);
        out.push(':');
        push_two_digits(seconds / 60 % 60, &mut out);
        out.push(':');
        push_two_digits(seconds % 60, &mut out);
    } else {
        push_decimal(seconds / 60, &mut out);
        out.push(':');
        push_two_digits(seconds % 60, &mut out);
    }
    out
}

/// A duration as text, `H:MM:SS` or `M:SS`; empty for a duration that is
/// not positive.
pub fn formatted_duration(duration: Duration) -> (res: String)
    ensures
        res@ == duration_text(duration.seconds as int),
{
    let chars = duration_chars(duration);
    from_chars(chars.as_slice())
}

/// The greater of two numbers.
pub open spec fn greater(a: nat, b: nat) -> nat {
    if a >= b {
        a
    } else {
        b
    }
}

/// The length of the longest artist name; 0 without tracks.
pub open spec fn max_artist_len(tracks: Seq<TrackView>) -> nat
    decreases tracks.len(),
{
    if tracks.len() == 0 {
        0
    } else {
        greater(max_artist_len(tracks.drop_last()), tracks.last().artist.len())
    }
}

/// The length of the longest title; 0 without tracks.
pub open spec fn max_title_len(tracks: Seq<TrackView>) -> nat
    decreases tracks.len(),
{
    if tracks.len() == 0 {
        0
    } else {
        greater(max_title_len(tracks.drop_last()), tracks.last().title.len())
    }
}

/// The length of the longest play time as text; 0 without tracks. A track
/// without a play time counts as one of no seconds.
pub open spec fn max_playtime_len(tracks: Seq<TrackView>) -> nat
    decreases tracks.len(),
{
    if tracks.len() == 0 {
        0
    } else {
        greater(
            max_playtime_len(tracks.drop_last()),
            duration_text(seconds_of(tracks.last().play_time)).len(),
        )
    }
}

/// The number of characters of the longest artist name.
pub fn get_max_artist_length(tracks: &[Track]) -> (res: usize)
    ensures
        res == max_artist_len(track_views(tracks@)),
{
    let ghost all = track_views(tracks@);
    let mut longest: usize = 0;
    let mut i: usize = 0;
    while i < tracks.len()
        invariant
            i <= tracks.len(),
            all == track_views(tracks@),
            longest == max_artist_len(all.take(i as int)),
        decreases tracks.len() - i,
    {
        proof {
            let upto = all.take(i + 1);
            assert(upto.drop_last() =~= all.take(i as int));
        }
        let length = tracks[i].artist_length();
        if length > longest {
            longest = length;
        }
        i += 1;
    }
    proof {
        assert(all.take(tracks.len() as int) =~= all);
    }
    longest
}

/// The number of characters of the longest title.
pub fn get_max_title_length(tracks: &[Track]) -> (res: usize)
    ensures
        res == max_title_len(track_views(tracks@)),
{
    let ghost all = track_views(tracks@);
    let mut longest: usize = 0;
    let mut i: usize = 0;
    while i < tracks.len()
        invariant
            i <= tracks.len(),
            all == track_views(tracks@),
            longest == max_title_len(all.take(i as int)),
        decreases tracks.len() - i,
    {
        proof {
            let upto = all.take(i + 1);
            assert(upto.drop_last() =~= all.take(i as int));
        }
        let length = tracks[i].title_length();
        if length > longest {
            longest = length;
        }
        i += 1;
    }
    proof {
        assert(all.take(tracks.len() as int) =~= all);
    }
    longest
}

/// The number of characters of the longest play time as text.
pub fn get_max_playtime_length(tracks: &[Track]) -> (res: usize)
    ensures
        res == max_playtime_len(track_views(tracks@)),
{
    let ghost all = track_views(tracks@);
    let mut longest: usize = 0;
    let mut i: usize = 0;
    while i < tracks.len()
        invariant
            i <= tracks.len(),
            all == track_views(tracks@),
            longest == max_playtime_len(all.take(i as int)),
        decreases tracks.len() - i,
    {
        proof {
            let upto = all.take(i + 1);
            assert(upto.drop_last() =~= all.take(i as int));
        }
        let text = match tracks[i].play_time {
            Some(duration) => duration_chars(duration),
            None => duration_chars(Duration { seconds: 0 }),
        };
        if text.len() > longest {
            longest = text.len();
        }
        i += 1;
    }
    proof {
        assert(all.take(tracks.len() as int) =~= all);
    }
    longest
}

/// The pattern of a date written day, month, year, with dots between.
pub const DAY_FIRST_PATTERN: &'static str = "(\\d{1,2})\\.(\\d{1,2})\\.(\\d{4})";

/// The pattern of a date written year, month, day, with dots between.
pub const YEAR_FIRST_PATTERN: &'static str = "(\\d{4})\\.(\\d{1,2})\\.(\\d{1,2})";

/// What the first match of the regular expression `pattern` in `text`
/// captures, as `regex::Regex::captures` finds it: the text of each
/// group, the whole match being group 0, and `None` for a group that took
/// no part in the match. `None` where nothing matches or `regex::Regex::new`
/// refuses the pattern.
pub uninterp spec fn regex_captures(pattern: Seq<char>, text: Seq<char>) -> Option<
    Seq<Option<Seq<char>>>,
>;

/// Compiles `pattern` with `regex::Regex::new`, searches `text` with
/// `regex::Regex::captures` and copies the text of each group of the
/// match. The contract gives the outcome the name `regex_captures` and
/// claims nothing else of it.
#[verifier::external_body]
pub(crate) fn captures(pattern: &str, text: &str) -> (res: Option<Vec<Option<String>>>)
    ensures
        res.deep_view() == regex_captures(pattern@, text@),
{
    let regex = regex::Regex::new(pattern).ok()?;
    let found = regex.captures(text)?;
    Some(found.iter().map(|group| group.map(|part| part.as_str().to_owned())).collect())
}

/// Whether `c` is one of the digits `0` to `9`.
pub open spec fn is_digit(c: char) -> bool {
    '0' <= c <= '9'
}

/// The number that a sequence of decimal digits writes.
pub open spec fn digits_value(s: Seq<char>) -> nat
    decreases s.len(),
{
    if s.len() == 0 {
        0
    } else {
        digits_value(s.drop_last()) * 10 + ((s.last() as u8 - 48) as nat)
    }
}

/// The number that `s` writes, where `s` is one or more decimal digits and
/// nothing else.
pub open spec fn number_of(s: Seq<char>) -> Option<nat> {
    if s.len() > 0 && forall|i: int| 0 <= i < s.len() ==> is_digit(s[i]) {
        Some(digits_value(s))
    } else {
        None
    }
}

/// The number that group `i` writes.
pub open spec fn group_number(groups: Seq<Option<Seq<char>>>, i: int) -> Option<nat> {
    if 0 <= i < groups.len() {
        match groups[i] {
            Some(text) => number_of(text),
            None => None,
        }
    } else {
        None
    }
}

/// Midnight of the date whose year, month and day three groups write, where
/// the calendar has that date.
pub open spec fn date_of_groups(
    groups: Seq<Option<Seq<char>>>,
    year_at: int,
    month_at: int,
    day_at: int,
) -> Option<DateTime> {
    match (
        group_number(groups, year_at),
        group_number(groups, month_at),
        group_number(groups, day_at),
    ) {
        (Some(year), Some(month), Some(day)) => if is_calendar_date(
            year as int,
            month as int,
            day as int,
        ) {
            Some(
                DateTime {
                    date: Date { year: year as i32, month: month as u32, day: day as u32 },
                    time: Time { hour: 0, minute: 0, second: 0 },
                },
            )
        } else {
            None
        },
        _ => None,
    }
}

/// The date that a name holds, given what the two patterns capture in it.
/// A match of the day-first pattern decides, whether or not it writes a
/// date of the calendar; the year-first pattern counts only where the
/// day-first one matches nothing.
pub open spec fn date_of_captures(
    day_first: Option<Seq<Option<Seq<char>>>>,
    year_first: Option<Seq<Option<Seq<char>>>>,
) -> Option<DateTime> {
    match day_first {
        Some(groups) => date_of_groups(groups, 3, 2, 1),
        None => match year_first {
            Some(groups) => date_of_groups(groups, 1, 2, 3),
            None => None,
        },
    }
}

/// The date that the name `name` holds: see `date_of_captures`.
pub open spec fn date_in_name(name: Seq<char>) -> Option<DateTime> {
    date_of_captures(
        regex_captures(DAY_FIRST_PATTERN@, name),
        regex_captures(YEAR_FIRST_PATTERN@, name),
    )
}

/// A prefix of digits writes no greater number than the whole.
pub proof fn lemma_digits_value_grows(s: Seq<char>, k: int)
    requires
        0 <= k <= s.len(),
    ensures
        digits_value(s.take(k)) <= digits_value(s),
    decreases s.len() - k,
{
    if k < s.len() {
        lemma_digits_value_grows(s, k + 1);
        assert(s.take(k + 1).drop_last() =~= s.take(k));
    } else {
        assert(s.take(k) =~= s);
    }
}

/// The number that `text` writes, where it is one or more decimal digits
/// and the number fits in 32 bits.
pub fn parse_number(text: &str) -> (res: Option<u32>)
    ensures
        res == match number_of(text@) {
            Some(n) => if n <= u32::MAX {
                Some(n as u32)
            } else {
                None::<u32>
            },
            None => None::<u32>,
        },
{
    let chars = to_chars(text);
    if chars.len() == 0 {
        return None;
    }
    let mut value: u64 = 0;
    let mut i: usize = 0;
    while i < chars.len()
        invariant
            i <= chars.len(),
            chars@ == text@,
            forall|j: int| 0 <= j < i ==> is_digit(chars@[j]),
            value == digits_value(chars@.take(i as int)),
            value <= u32::MAX,
        decreases chars.len() - i,
    {
        let c = chars[i];
        if c < '0' || c > '9' {
            return None;
        }
        proof {
            assert(chars@.take(i + 1).drop_last() =~= chars@.take(i as int));
        }
        value = value * 10 + ((c as u8 - 48) as u64);
        if value > 0xffff_ffff {
            proof {
                lemma_digits_value_grows(chars@, i + 1);
            }
            return None;
        }
        i += 1;
    }
    proof {
        assert(chars@.take(chars.len() as int) =~= chars@);
    }
    Some(value as u32)
}

/// Midnight of the date whose year, month and day the groups at three places
/// write, where the calendar has that date.
pub fn date_from_captures(
    groups: &Vec<Option<String>>,
    year_at: usize,
    month_at: usize,
    day_at: usize,
) -> (res: Option<DateTime>)
    ensures
        res == date_of_groups(groups.deep_view(), year_at as int, month_at as int, day_at as int),
{
    let year = group_value(groups, year_at);
    let month = group_value(groups, month_at);
    let day = group_value(groups, day_at);
    match (year, month, day) {
        (Some(y), Some(m), Some(d)) => {
            if y > 0x7fff_ffff {
                return None;
            }
            match Date::from_ymd_opt(y as i32, m, d) {
                Some(date) => Some(date.midnight()),
                None => None,
            }
        },
        _ => None,
    }
}

/// The number that group `i` writes, where it fits in 32 bits.
pub fn group_value(groups: &Vec<Option<String>>, i: usize) -> (res: Option<u32>)
    ensures
        res == match group_number(groups.deep_view(), i as int) {
            Some(n) => if n <= u32::MAX {
                Some(n as u32)
            } else {
                None::<u32>
            },
            None => None::<u32>,
        },
{
    if i >= groups.len() {
        return None;
    }
    match &groups[i] {
        Some(text) => parse_number(text.as_str()),
        None => None,
    }
}

/// The date that a playlist's name holds, at midnight. The name is searched
/// for a date written day, month, year and, where there is none, for one
/// written year, month, day.
pub fn extract_datetime_from_name(input: &str) -> (res: Option<DateTime>)
    ensures
        res == date_in_name(input@),
{
    match captures(DAY_FIRST_PATTERN, input) {
        Some(groups) => date_from_captures(&groups, 3, 2, 1),
        None => match captures(YEAR_FIRST_PATTERN, input) {
            Some(groups) => date_from_captures(&groups, 1, 2, 3),
            None => None,
        },
    }
}

/// The format of a playlist file, told by its extension.
pub open spec fn playlist_format_of(file: Seq<char>, extension: Option<Seq<char>>) -> Result<
    FileFormat,
    PlaylistErrorView,
> {
    match extension {
        None => Err(PlaylistErrorView::UnsupportedFormat { file, extension: None }),
        Some(word) => match file_format_of(word) {
            Ok(format) => Ok(format),
            Err(_) => Err(PlaylistErrorView::UnsupportedFormat { file, extension: Some(word) }),
        },
    }
}

/// The format of the playlist file `file`, told by its extension. A file
/// without an extension, or with one that names no format that can be read,
/// has none: the error names the extension and the formats that can be
/// read.
pub fn playlist_format(file: &str, extension: Option<&str>) -> (res: Result<
    FileFormat,
    PlaylistError,
>)
    ensures
        outcome(res) == playlist_format_of(
            file@,
            match extension {
                Some(word) => Some(word@),
                None => None,
            },
        ),
{
    match extension {
        None => Err(PlaylistError::UnsupportedFormat { file: file.to_owned(), extension: None }),
        Some(word) => match FileFormat::from_str(word) {
            Ok(format) => Ok(format),
            Err(_) => Err(
                PlaylistError::UnsupportedFormat {
                    file: file.to_owned(),
                    extension: Some(word.to_owned()),
                },
            ),
        },
    }
}

/// `path` with a dot and `extension` behind it, whatever dots the path
/// holds already.
pub fn append_extension_to_path(path: String, extension: &str) -> (res: String)
    ensures
        res@ == path@ + "."@ + extension@,
{
    let mut out = path;
    out.append(".");
    out.append(extension);
    out
}

/// One component of a path.
#[derive(Debug, PartialEq, Eq)]
pub enum PathComponent {
    /// A drive or share that the path starts with.
    Prefix(String),
    /// The root directory.
    RootDir,
    /// A reference to the current directory, `.`.
    CurDir,
    /// A reference to the parent directory, `..`.
    ParentDir,
    /// A file or directory name.
    Normal(String),
}

impl Clone for PathComponent {
    fn clone(&self) -> (res: PathComponent)
        ensures
            res == *self,
    {
        match self {
            PathComponent::Prefix(text) => PathComponent::Prefix(text.clone()),
            PathComponent::RootDir => PathComponent::RootDir,
            PathComponent::CurDir => PathComponent::CurDir,
            PathComponent::ParentDir => PathComponent::ParentDir,
            PathComponent::Normal(name) => PathComponent::Normal(name.clone()),
        }
    }
}

/// The components of a path without its references to the current and the
/// parent directory. The components are taken from the first to the last: a
/// prefix, the root and a name are kept, `.` is dropped, and `..` drops
/// itself and the name before it, if one stands there.
pub open spec fn normalized(components: Seq<PathComponent>) -> Seq<PathComponent>
    decreases components.len(),
{
    if components.len() == 0 {
        Seq::empty()
    } else {
        let before = normalized(components.drop_last());
        match components.last() {
            PathComponent::CurDir => before,
            PathComponent::ParentDir => if before.len() > 0 && before.last() is Normal {
                before.drop_last()
            } else {
                before
            },
            other => before.push(other),
        }
    }
}

/// Normalizes a path that need not exist: resolves its references to the
/// current and the parent directory without a look at the file system.
pub fn normalize_path(path: &[PathComponent]) -> (res: Vec<PathComponent>)
    ensures
        res@ == normalized(path@),
{
    let mut ret: Vec<PathComponent> = Vec::new();
    let mut i: usize = 0;
    while i < path.len()
        invariant
            i <= path.len(),
            ret@ == normalized(path@.take(i as int)),
        decreases path.len() - i,
    {
        proof {
            let upto = path@.take(i + 1);
            assert(upto.drop_last() =~= path@.take(i as int));
        }
        match &path[i] {
            PathComponent::CurDir => {},
            PathComponent::ParentDir => {
                let pop = ret.len() > 0 && match &ret[ret.len() - 1] {
                    PathComponent::Normal(_) => true,
                    _ => false,
                };
                if pop {
                    ret.pop();
                }
            },
            other => {
                ret.push(other.clone());
            },
        }
        i += 1;
    }
    proof {
        assert(path@.take(path.len() as int) =~= path@);
    }
    ret
}

/// The path that the user asks to save to: the given text, trimmed, where
/// anything is left of it.
pub open spec fn asked_path(filepath: Option<Seq<char>>) -> Option<Seq<char>> {
    match filepath {
        Some(text) => if trim(text).len() > 0 {
            Some(trim(text))
        } else {
            None
        },
        None => None,
    }
}

/// Whether the extension of an output path names a format that can be
/// written.
pub open spec fn is_output_extension(extension: Option<Seq<char>>) -> bool {
    match extension {
        Some(word) => output_format_of(word) is Ok,
        None => false,
    }
}

/// The format to write a file with the extension `extension` in: the one
/// that the extension names in any case, if it names one.
pub open spec fn writer_of(extension: Seq<char>) -> Option<OutputFormat> {
    if lowercase(extension) == "csv"@ {
        Some(OutputFormat::Csv)
    } else if lowercase(extension) == "txt"@ {
        Some(OutputFormat::Txt)
    } else if lowercase(extension) == "xlsx"@ {
        Some(OutputFormat::Xlsx)
    } else {
        None
    }
}

/// The path that the user asks to save to, if any.
pub fn output_path_asked(filepath: Option<String>) -> (res: Option<String>)
    ensures
        res.deep_view() == asked_path(filepath.deep_view()),
{
    match filepath {
        Some(text) => {
            let chars = to_chars(text.as_str());
            let trimmed = trim_chars(chars.as_slice());
            if trimmed.len() > 0 {
                Some(from_chars(trimmed.as_slice()))
            } else {
                None
            }
        },
        None => None,
    }
}

/// An output path with an extension that can be written: the path as it is
/// where `extension`, its extension, names an output format, and else the
/// path with `.csv` behind it.
pub fn with_output_extension(path: String, extension: Option<&str>) -> (res: String)
    ensures
        res@ == if is_output_extension(
            match extension {
                Some(word) => Some(word@),
                None => None,
            },
        ) {
            path@
        } else {
            path@ + "."@ + "csv"@
        },
{
    let known = match extension {
        Some(word) => OutputFormat::from_str(word).is_ok(),
        None => false,
    };
    if known {
        path
    } else {
        append_extension_to_path(path, "csv")
    }
}

/// The format to write a file with the extension `extension` in.
pub fn writer_for_extension(extension: &str) -> (res: Option<OutputFormat>)
    ensures
        res == writer_of(extension@),
{
    let chars = to_chars(extension);
    let mut lowered: Vec<char> = Vec::new();
    let mut i: usize = 0;
    while i < chars.len()
        invariant
            i <= chars.len(),
            lowered@ == lowercase(chars@).take(i as int),
        decreases chars.len() - i,
    {
        lowered.push(lower_char(chars[i]));
        i += 1;
    }
    proof {
        assert(lowercase(chars@).take(chars.len() as int) =~= lowercase(chars@));
    }
    let csv = to_chars("csv");
    let txt = to_chars("txt");
    let xlsx = to_chars("xlsx");
    if same_chars(lowered.as_slice(), csv.as_slice()) {
        Some(OutputFormat::Csv)
    } else if same_chars(lowered.as_slice(), txt.as_slice()) {
        Some(OutputFormat::Txt)
    } else if same_chars(lowered.as_slice(), xlsx.as_slice()) {
        Some(OutputFormat::Xlsx)
    } else {
        None
    }
}

} // verus!
