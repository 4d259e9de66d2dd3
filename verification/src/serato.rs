//! The Serato dialects: the fixed-width text export and the rows of a
//! Serato history.

use crate::error::{PlaylistError, PlaylistErrorView};
use crate::fields::{missing_field, require_fields, HeaderMap, Row};
use crate::playlist::{assembled, says, Playlist, PlaylistView};
use crate::text::{
    filling, find_chars, first_occurrence, from_chars, is_trimmed, is_whitespace,
    lemma_trim_drops_spaces, lemma_trim_start_skip, slice_to_vec, to_chars, trim, trim_chars,
    trim_end, trim_start, views,
};
use crate::time::{
    parse_datetime, parse_time, parsed_datetime, parsed_time, seconds_of_day, Date, DateTime,
    Duration, Time,
};
use crate::track::{
    lemma_merge_collapses_repeats, merge_consecutive, merged, no_repeats, repeats, track_views,
    Track, TrackView,
};
use crate::types::{FileFormat, PlaylistType};
use crate::utils::{
    date_in_name, extract_datetime_from_name, lemma_merge_keeps_total, total_seconds,
};
use vstd::prelude::*;

verus! {

/// Whether every character of `cell` is a dash. An empty cell counts.
pub open spec fn is_divider(cell: Seq<char>) -> bool {
    forall|i: int| 0 <= i < cell.len() ==> cell[i] == '-'
}

/// Whether five spaces stand in `s` from index `i` on.
pub open spec fn wide_gap_at(s: Seq<char>, i: int) -> bool {
    &&& 0 <= i
    &&& i + 5 <= s.len()
    &&& forall|j: int| i <= j < i + 5 ==> s[j] == ' '
}

/// The pieces of `s` from index `i` on that blocks of five spaces
/// separate, read from left to right; `current` is the piece begun before
/// `i`.
pub open spec fn gap_pieces(s: Seq<char>, i: int, current: Seq<char>) -> Seq<Seq<char>>
    decreases s.len() - i,
{
    if i < 0 || i >= s.len() {
        seq![current]
    } else if wide_gap_at(s, i) {
        seq![current] + gap_pieces(s, i + 5, Seq::empty())
    } else {
        gap_pieces(s, i + 1, current.push(s[i]))
    }
}

/// The pieces trimmed, without those that are empty after trimming.
pub open spec fn trimmed_nonempty(pieces: Seq<Seq<char>>) -> Seq<Seq<char>>
    decreases pieces.len(),
{
    if pieces.len() == 0 {
        Seq::empty()
    } else {
        let before = trimmed_nonempty(pieces.drop_last());
        let name = trim(pieces.last());
        if name.len() > 0 {
            before.push(name)
        } else {
            before
        }
    }
}

/// The column names of a fixed-width header line: its pieces between
/// blocks of five spaces, trimmed, the empty ones left out.
pub open spec fn column_names(header: Seq<char>) -> Seq<Seq<char>> {
    trimmed_nonempty(gap_pieces(header, 0, Seq::empty()))
}

/// For each name that occurs in the header, the index of its first
/// occurrence there, in the order of the names.
pub open spec fn column_offsets(header: Seq<char>, names: Seq<Seq<char>>) -> Seq<int>
    decreases names.len(),
{
    if names.len() == 0 {
        Seq::empty()
    } else {
        let before = column_offsets(header, names.drop_last());
        match first_occurrence(header, names.last()) {
            Some(i) => before.push(i),
            None => before,
        }
    }
}

/// The cells of a fixed-width line. The offsets are taken from the last to
/// the first: an offset inside what is left of the line cuts the line there,
/// the part from the offset on is a cell, and the part before it is left. An
/// offset at or behind the end of what is left gives no cell.
pub open spec fn cells_at(line: Seq<char>, offsets: Seq<int>) -> Seq<Seq<char>>
    decreases offsets.len(),
{
    if offsets.len() == 0 {
        Seq::empty()
    } else {
        let offset = offsets.last();
        if 0 <= offset < line.len() {
            cells_at(line.take(offset), offsets.drop_last()).push(trim(line.skip(offset)))
        } else {
            cells_at(line, offsets.drop_last())
        }
    }
}

/// `count` empty cells; none for a count below one.
pub open spec fn empty_cells(count: int) -> Seq<Seq<char>> {
    Seq::new(
        if count > 0 {
            count as nat
        } else {
            0
        },
        |i: int| Seq::<char>::empty(),
    )
}

/// `cells`, filled up at the end with empty cells to `width` cells.
pub open spec fn padded(cells: Seq<Seq<char>>, width: nat) -> Seq<Seq<char>> {
    cells + empty_cells(width - cells.len())
}

/// The first cell of a line, empty where the line has no cell.
pub open spec fn first_cell(line: Seq<Seq<char>>) -> Seq<char> {
    if line.len() > 0 {
        line[0]
    } else {
        Seq::empty()
    }
}

/// The rows of the lines whose first cell is no divider: the first cell of
/// each cut at the offsets and filled up to `width` cells.
pub open spec fn rows_at(lines: Seq<Seq<Seq<char>>>, offsets: Seq<int>, width: nat) -> Seq<
    Seq<Seq<char>>,
>
    decreases lines.len(),
{
    if lines.len() == 0 {
        Seq::empty()
    } else {
        let before = rows_at(lines.drop_last(), offsets, width);
        let cell = first_cell(lines.last());
        if is_divider(cell) {
            before
        } else {
            before.push(padded(cells_at(cell, offsets), width))
        }
    }
}

/// The rows of a fixed-width text export. The first cell of the first line
/// is the header: it gives the column names and, by their first
/// occurrences in it, the offsets. Every line but the dividers, the header
/// line too, becomes one row with a cell for each column.
pub open spec fn fixed_width_rows(lines: Seq<Seq<Seq<char>>>) -> Seq<Seq<Seq<char>>> {
    if lines.len() == 0 {
        Seq::empty()
    } else {
        let header = first_cell(lines[0]);
        let names = column_names(header);
        rows_at(lines, column_offsets(header, names), names.len())
    }
}

/// Whether the offsets are at or behind the start of a line and grow from
/// each to the next.
pub open spec fn increasing(offsets: Seq<int>) -> bool {
    &&& forall|i: int| 0 <= i < offsets.len() ==> offsets[i] >= 0
    &&& forall|i: int, j: int| 0 <= i < j < offsets.len() ==> offsets[i] < offsets[j]
}

/// The text of column `i` of a line: what stands from the offset of the
/// column up to the next offset, or up to the end of the line where the line
/// ends before that, trimmed. A column that the line does not reach has no
/// text.
pub open spec fn column_text(line: Seq<char>, offsets: Seq<int>, i: int) -> Seq<char> {
    if offsets[i] < line.len() {
        trim(
            line.subrange(
                offsets[i],
                if i + 1 < offsets.len() && offsets[i + 1] < line.len() {
                    offsets[i + 1]
                } else {
                    line.len() as int
                },
            ),
        )
    } else {
        Seq::empty()
    }
}

/// With increasing offsets, a line gives one cell for each column that it
/// reaches, and the cell is the text of the column.
#[verifier::spinoff_prover]
pub proof fn lemma_cells_at_increasing(line: Seq<char>, offsets: Seq<int>)
    requires
        increasing(offsets),
    ensures
        cells_at(line, offsets).len() <= offsets.len(),
        forall|i: int|
            0 <= i < offsets.len() ==> (#[trigger] offsets[i] < line.len() <==> i < cells_at(
                line,
                offsets,
            ).len()),
        forall|i: int|
            0 <= i < cells_at(line, offsets).len() ==> #[trigger] cells_at(line, offsets)[i]
                == column_text(line, offsets, i),
    decreases offsets.len(),
{
    if offsets.len() > 0 {
        let last = offsets.last();
        let rest = offsets.drop_last();
        let n = offsets.len() as int;
        assert(increasing(rest));
        if 0 <= last < line.len() {
            // The last column takes the end of the line; what is left of the
            // line reaches every column before it.
            let left = line.take(last);
            lemma_cells_at_increasing(left, rest);
            assert(cells_at(left, rest).len() == n - 1);
            let all = cells_at(line, offsets);
            assert forall|i: int| 0 <= i < all.len() implies #[trigger] all[i] == column_text(
                line,
                offsets,
                i,
            ) by {
                if i < n - 1 {
                    assert(offsets[i + 1] <= last);
                    assert(left.subrange(rest[i], offsets[i + 1]) =~= line.subrange(
                        offsets[i],
                        offsets[i + 1],
                    ));
                }
            }
        } else {
            // The line ends before the last column, which gives no cell.
            lemma_cells_at_increasing(line, rest);
            assert(last >= 0);
            assert forall|i: int| 0 <= i < offsets.len() implies (#[trigger] offsets[i]
                < line.len() <==> i < cells_at(line, offsets).len()) by {
                if i < n - 1 {
                    assert(rest[i] == offsets[i]);
                }
            }
        }
    }
}

/// With increasing offsets, the row of a line has for each column the text
/// of that column: a cell that is missing at the end of the line is empty
/// and shifts no cell before it.
pub proof fn lemma_fixed_width_columns(line: Seq<char>, offsets: Seq<int>)
    requires
        increasing(offsets),
    ensures
        padded(cells_at(line, offsets), offsets.len()).len() == offsets.len(),
        forall|i: int|
            0 <= i < offsets.len() ==> #[trigger] padded(cells_at(line, offsets), offsets.len())[i]
                == column_text(line, offsets, i),
{
    lemma_cells_at_increasing(line, offsets);
}

/// The line in which each value stands at the offset of its column, with
/// spaces between the values. There may be fewer values than columns.
pub open spec fn laid_out(values: Seq<Seq<char>>, offsets: Seq<int>) -> Seq<char>
    decreases values.len(),
{
    if values.len() == 0 {
        Seq::empty()
    } else {
        let before = laid_out(values.drop_last(), offsets);
        before + filling(' ', offsets[values.len() - 1] - before.len()) + values.last()
    }
}

/// Whether the values can stand in the columns: there are no more values
/// than columns, no value starts or ends with whitespace, and each value
/// ends at or before the offset of the next column.
pub open spec fn fits_columns(values: Seq<Seq<char>>, offsets: Seq<int>) -> bool {
    &&& values.len() <= offsets.len()
    &&& forall|i: int| 0 <= i < values.len() ==> is_trimmed(#[trigger] values[i])
    &&& forall|i: int|
        0 <= i < values.len() && i + 1 < offsets.len() ==> offsets[i] + (#[trigger] values[i]).len()
            <= offsets[i + 1]
}

/// Where the values stand in a line that is laid out: the line ends with
/// the last value, each value stands at its offset, and spaces fill the
/// line from each value to the next.
#[verifier::spinoff_prover]
pub proof fn lemma_laid_out(values: Seq<Seq<char>>, offsets: Seq<int>)
    requires
        increasing(offsets),
        fits_columns(values, offsets),
    ensures
        laid_out(values, offsets).len() == if values.len() == 0 {
            0
        } else {
            offsets[values.len() - 1] + values.last().len()
        },
        forall|i: int, p: int|
            #![trigger values[i], laid_out(values, offsets)[p]]
            0 <= i < values.len() && offsets[i] <= p < offsets[i] + values[i].len() ==> laid_out(
                values,
                offsets,
            )[p] == values[i][p - offsets[i]],
        forall|i: int, p: int|
            #![trigger values[i], laid_out(values, offsets)[p]]
            0 <= i && i + 1 < values.len() && offsets[i] + values[i].len() <= p < offsets[i + 1]
                ==> laid_out(values, offsets)[p] == ' ',
    decreases values.len(),
{
    if values.len() > 0 {
        let m = values.len() as int;
        let rest = values.drop_last();
        assert(fits_columns(rest, offsets)) by {
            assert forall|i: int| 0 <= i < rest.len() implies is_trimmed(#[trigger] rest[i]) by {
                assert(rest[i] == values[i]);
            }
            assert forall|i: int| 0 <= i < rest.len() && i + 1 < offsets.len() implies offsets[i]
                + (#[trigger] rest[i]).len() <= offsets[i + 1] by {
                assert(rest[i] == values[i]);
            }
        }
        lemma_laid_out(rest, offsets);
        let before = laid_out(rest, offsets);
        let line = laid_out(values, offsets);
        let gap = offsets[m - 1] - before.len();
        assert(offsets[m - 1] >= 0);
        // The values before the last end at or before its offset.
        assert(gap >= 0) by {
            if m > 1 {
                assert(rest.last() == values[m - 2]);
                assert(offsets[m - 2] + values[m - 2].len() <= offsets[m - 1]);
            }
        }
        assert(line == before + filling(' ', gap) + values.last());
        assert(line.len() == offsets[m - 1] + values.last().len());
        assert forall|i: int, p: int|
            #![trigger values[i], line[p]]
            0 <= i < values.len() && offsets[i] <= p < offsets[i]
                + values[i].len() implies line[p] == values[i][p - offsets[i]] by {
            if i < m - 1 {
                assert(rest[i] == values[i]);
                assert(rest.last() == values[m - 2]);
                assert(offsets[i] + values[i].len() <= before.len()) by {
                    if i < m - 2 {
                        assert(offsets[i] + values[i].len() <= offsets[i + 1]);
                        if i + 1 < m - 2 {
                            assert(offsets[i + 1] < offsets[m - 2]);
                        }
                    }
                }
                assert(line[p] == before[p]);
                assert(before[p] == rest[i][p - offsets[i]]);
            } else {
                assert(line[p] == values.last()[p - offsets[m - 1]]);
            }
        }
        assert forall|i: int, p: int|
            #![trigger values[i], line[p]]
            0 <= i && i + 1 < values.len() && offsets[i] + values[i].len() <= p < offsets[i
                + 1] implies line[p] == ' ' by {
            assert(rest.last() == values[m - 2]);
            if i + 1 < m - 1 {
                assert(rest[i] == values[i]);
                assert(offsets[i + 1] <= before.len()) by {
                    if i + 1 < m - 2 {
                        assert(offsets[i + 1] < offsets[m - 2]);
                    }
                }
                assert(line[p] == before[p]);
                assert(before[p] == ' ');
            } else {
                assert(before.len() == offsets[m - 2] + values[m - 2].len());
                assert(line[p] == filling(' ', gap)[p - before.len()]);
            }
        }
    }
}

/// A line that is laid out gives back its values: the row of the line has
/// each value in the cell of its column, in the order of the columns, and
/// empty cells for the columns at the end of the line that have no value.
#[verifier::spinoff_prover]
pub proof fn lemma_fixed_width_round_trip(values: Seq<Seq<char>>, offsets: Seq<int>)
    requires
        increasing(offsets),
        fits_columns(values, offsets),
    ensures
        padded(cells_at(laid_out(values, offsets), offsets), offsets.len()) == values
            + empty_cells(offsets.len() - values.len()),
{
    let line = laid_out(values, offsets);
    let row = padded(cells_at(line, offsets), offsets.len());
    let m = values.len() as int;
    let k = offsets.len() as int;
    lemma_laid_out(values, offsets);
    lemma_fixed_width_columns(line, offsets);
    assert(row.len() == k);
    assert forall|i: int| 0 <= i < k implies #[trigger] row[i] == if i < m {
        values[i]
    } else {
        Seq::<char>::empty()
    } by {
        assert(row[i] == column_text(line, offsets, i));
        assert(offsets[i] >= 0);
        if i + 1 < m {
            // The column holds the value and the spaces up to the next one.
            let value = values[i];
            let spaces = offsets[i + 1] - offsets[i] - value.len();
            assert(offsets[i] + value.len() <= offsets[i + 1]);
            assert(offsets[i] < offsets[i + 1]);
            assert(offsets[i + 1] <= offsets[m - 1]) by {
                if i + 1 < m - 1 {
                    assert(offsets[i + 1] < offsets[m - 1]);
                }
            }
            assert(offsets[i + 1] <= line.len());
            let part = line.subrange(offsets[i], offsets[i + 1]);
            let expected = value + filling(' ', spaces);
            assert(part.len() == expected.len());
            assert forall|j: int| 0 <= j < part.len() implies part[j] == expected[j] by {
                let p = offsets[i] + j;
                assert(part[j] == line[p]);
                if j < value.len() {
                    assert(line[p] == values[i][p - offsets[i]]);
                } else {
                    assert(values[i] == value);
                    assert(line[p] == ' ');
                }
            }
            assert(part =~= expected);
            lemma_trim_drops_spaces(value, spaces);
        } else if i < m {
            // The line ends with the last value.
            let value = values[i];
            assert(value == values.last());
            assert(line.len() == offsets[i] + value.len());
            if value.len() > 0 {
                let part = line.subrange(offsets[i], line.len() as int);
                assert forall|j: int| 0 <= j < part.len() implies part[j] == value[j] by {
                    let p = offsets[i] + j;
                    assert(part[j] == line[p]);
                    assert(line[p] == values[i][p - offsets[i]]);
                }
                assert(part =~= value + filling(' ', 0));
                lemma_trim_drops_spaces(value, 0);
            } else {
                assert(value =~= Seq::<char>::empty());
            }
        } else if m > 0 {
            // The line ends before the column.
            assert(offsets[m - 1] + values[m - 1].len() <= offsets[m]);
            assert(offsets[m] <= offsets[i]) by {
                if m < i {
                    assert(offsets[m] < offsets[i]);
                }
            }
        }
    }
    assert(row =~= values + empty_cells(k - m));
}

/// Whether `name` can be the name of a column: it is not empty, neither
/// starts nor ends with whitespace, and holds no five spaces in a row.
pub open spec fn is_column_name(name: Seq<char>) -> bool {
    &&& name.len() > 0
    &&& is_trimmed(name)
    &&& forall|p: int| !wide_gap_at(name, p)
}

/// Whether the names can head the columns at the offsets: there is one
/// name for each offset, the offsets increase, and five spaces or more part
/// each name from the next.
pub open spec fn is_header_layout(names: Seq<Seq<char>>, offsets: Seq<int>) -> bool {
    &&& names.len() == offsets.len()
    &&& increasing(offsets)
    &&& forall|i: int| 0 <= i < names.len() ==> is_column_name(#[trigger] names[i])
    &&& forall|i: int|
        0 <= i && i + 1 < names.len() ==> offsets[i] + (#[trigger] names[i]).len() + 5
            <= offsets[i + 1]
}

/// A line that is laid out starts with spaces up to its first value.
#[verifier::spinoff_prover]
pub proof fn lemma_laid_out_start(values: Seq<Seq<char>>, offsets: Seq<int>)
    requires
        increasing(offsets),
        fits_columns(values, offsets),
        values.len() > 0,
    ensures
        forall|p: int| 0 <= p < offsets[0] ==> #[trigger] laid_out(values, offsets)[p] == ' ',
    decreases values.len(),
{
    let m = values.len() as int;
    let rest = values.drop_last();
    let before = laid_out(rest, offsets);
    let line = laid_out(values, offsets);
    assert(line == before + filling(' ', offsets[m - 1] - before.len()) + values.last());
    if m > 1 {
        assert(fits_columns(rest, offsets)) by {
            assert forall|i: int| 0 <= i < rest.len() implies is_trimmed(#[trigger] rest[i]) by {
                assert(rest[i] == values[i]);
            }
            assert forall|i: int| 0 <= i < rest.len() && i + 1 < offsets.len() implies offsets[i]
                + (#[trigger] rest[i]).len() <= offsets[i + 1] by {
                assert(rest[i] == values[i]);
            }
        }
        lemma_laid_out_start(rest, offsets);
        lemma_laid_out(rest, offsets);
        assert(rest.last() == values[m - 2]);
        assert(offsets[0] <= offsets[m - 2]) by {
            if 0 < m - 2 {
                assert(offsets[0] < offsets[m - 2]);
            }
        }
        assert(offsets[0] <= before.len());
        assert forall|p: int| 0 <= p < offsets[0] implies #[trigger] line[p] == ' ' by {
            assert(line[p] == before[p]);
        }
    } else {
        assert(rest =~= Seq::<Seq<char>>::empty());
        assert(before =~= Seq::<char>::empty());
        assert(offsets[0] >= 0);
        assert forall|p: int| 0 <= p < offsets[0] implies #[trigger] line[p] == ' ' by {
            assert(line[p] == filling(' ', offsets[0] - 0)[p]);
        }
    }
}

/// A header layout is a fitting of the names into the columns.
pub proof fn lemma_header_layout_fits(names: Seq<Seq<char>>, offsets: Seq<int>)
    requires
        is_header_layout(names, offsets),
    ensures
        fits_columns(names, offsets),
{
    assert forall|i: int| 0 <= i < names.len() implies is_trimmed(#[trigger] names[i]) by {
        assert(is_column_name(names[i]));
    }
    assert forall|i: int| 0 <= i < names.len() && i + 1 < offsets.len() implies offsets[i] + (
    #[trigger] names[i]).len() <= offsets[i + 1] by {
        assert(offsets[i] + names[i].len() + 5 <= offsets[i + 1]);
    }
}

/// Whitespace before a text that is trimmed and not empty is trimmed away,
/// and nothing else.
pub proof fn lemma_trim_drops_leading(spaces: Seq<char>, s: Seq<char>)
    requires
        s.len() > 0,
        is_trimmed(s),
        forall|q: int| 0 <= q < spaces.len() ==> spaces[q] == ' ',
    ensures
        trim(spaces + s) == s,
{
    let all = spaces + s;
    assert forall|q: int| 0 <= q < spaces.len() implies is_whitespace(all[q]) by {
        assert(all[q] == spaces[q]);
    }
    lemma_trim_start_skip(all, spaces.len() as int);
    assert(all.skip(spaces.len() as int) =~= s);
    assert(trim_start(s) == s);
    assert(trim_end(s) == s);
}

/// The names of the pieces behind a first piece are those of the pieces,
/// with the name of the first piece before them where it has one.
pub proof fn lemma_trimmed_nonempty_first(first: Seq<char>, pieces: Seq<Seq<char>>)
    ensures
        trimmed_nonempty(seq![first] + pieces) == if trim(first).len() > 0 {
            seq![trim(first)] + trimmed_nonempty(pieces)
        } else {
            trimmed_nonempty(pieces)
        },
    decreases pieces.len(),
{
    if pieces.len() == 0 {
        assert(seq![first] + pieces =~= seq![first]);
        assert(seq![first].drop_last() =~= Seq::<Seq<char>>::empty());
        assert(trimmed_nonempty(Seq::<Seq<char>>::empty()) =~= Seq::<Seq<char>>::empty());
        assert(trimmed_nonempty(seq![first]) =~= if trim(first).len() > 0 {
            seq![trim(first)]
        } else {
            Seq::<Seq<char>>::empty()
        });
    } else {
        let all = seq![first] + pieces;
        assert(all.drop_last() =~= seq![first] + pieces.drop_last());
        assert(all.last() == pieces.last());
        lemma_trimmed_nonempty_first(first, pieces.drop_last());
        if trim(first).len() > 0 {
            assert((seq![trim(first)] + trimmed_nonempty(pieces.drop_last())).push(
                trim(pieces.last()),
            ) =~= seq![trim(first)] + trimmed_nonempty(pieces.drop_last()).push(
                trim(pieces.last()),
            ));
        }
    }
}

/// Reading a header goes through a name character by character: no block
/// of five spaces starts inside a name.
#[verifier::spinoff_prover]
pub proof fn lemma_scan_name(
    names: Seq<Seq<char>>,
    offsets: Seq<int>,
    i: int,
    j: int,
    current: Seq<char>,
)
    requires
        is_header_layout(names, offsets),
        0 <= i < names.len(),
        0 <= j <= names[i].len(),
    ensures
        gap_pieces(laid_out(names, offsets), offsets[i] + j, current) == gap_pieces(
            laid_out(names, offsets),
            offsets[i] + names[i].len(),
            current + names[i].skip(j),
        ),
    decreases names[i].len() - j,
{
    let header = laid_out(names, offsets);
    let name = names[i];
    lemma_header_layout_fits(names, offsets);
    lemma_laid_out(names, offsets);
    assert(is_column_name(name));
    assert(offsets[i] >= 0);
    assert(offsets[i] + name.len() <= header.len()) by {
        if i + 1 < names.len() {
            assert(offsets[i] + name.len() + 5 <= offsets[i + 1]);
            assert(offsets[i + 1] <= offsets[names.len() - 1]) by {
                if i + 1 < names.len() - 1 {
                    assert(offsets[i + 1] < offsets[names.len() - 1]);
                }
            }
        }
    }
    if j < name.len() {
        let p = offsets[i] + j;
        assert(!wide_gap_at(header, p)) by {
            if wide_gap_at(header, p) {
                let end = name.len() - 1;
                let last = offsets[i] + end;
                assert(header[offsets[i] + end] == names[i][end]);
                assert(!is_whitespace(name.last()));
                if last < p + 5 {
                    assert(header[last] == ' ');
                } else {
                    assert forall|q: int| j <= q < j + 5 implies name[q] == ' ' by {
                        assert(header[offsets[i] + q] == name[q]);
                    }
                    assert(wide_gap_at(name, j));
                }
            }
        }
        assert(header[p] == name[j]);
        lemma_scan_name(names, offsets, i, j + 1, current.push(name[j]));
        assert(current.push(name[j]) + name.skip(j + 1) =~= current + name.skip(j));
    } else {
        assert(current + name.skip(j) =~= current);
    }
}

/// Reading a header goes through fewer than five spaces before a name
/// space by space.
#[verifier::spinoff_prover]
pub proof fn lemma_scan_spaces(
    names: Seq<Seq<char>>,
    offsets: Seq<int>,
    i: int,
    p: int,
    current: Seq<char>,
)
    requires
        is_header_layout(names, offsets),
        0 <= i < names.len(),
        0 <= p <= offsets[i],
        offsets[i] - p < 5,
        forall|q: int| p <= q < offsets[i] ==> laid_out(names, offsets)[q] == ' ',
    ensures
        gap_pieces(laid_out(names, offsets), p, current) == gap_pieces(
            laid_out(names, offsets),
            offsets[i],
            current + filling(' ', offsets[i] - p),
        ),
    decreases offsets[i] - p,
{
    let header = laid_out(names, offsets);
    lemma_header_layout_fits(names, offsets);
    lemma_laid_out(names, offsets);
    assert(is_column_name(names[i]));
    assert(header[offsets[i] + 0] == names[i][0]);
    assert(offsets[i] < header.len()) by {
        if i < names.len() - 1 {
            assert(offsets[i] < offsets[names.len() - 1]);
        }
    }
    if p < offsets[i] {
        assert(!wide_gap_at(header, p)) by {
            if wide_gap_at(header, p) {
                assert(header[offsets[i]] == ' ');
                assert(!is_whitespace(names[i][0]));
            }
        }
        assert(header[p] == ' ');
        lemma_scan_spaces(names, offsets, i, p + 1, current.push(' '));
        assert(current.push(' ') + filling(' ', offsets[i] - (p + 1)) =~= current + filling(
            ' ',
            offsets[i] - p,
        ));
    } else {
        assert(current + filling(' ', 0) =~= current);
    }
}

/// Reading a header from the start of name `i` on, with spaces begun
/// before it, gives the names from `i` on.
#[verifier::spinoff_prover]
pub proof fn lemma_scan_from_name(
    names: Seq<Seq<char>>,
    offsets: Seq<int>,
    i: int,
    current: Seq<char>,
)
    requires
        is_header_layout(names, offsets),
        0 <= i < names.len(),
        forall|q: int| 0 <= q < current.len() ==> current[q] == ' ',
    ensures
        trimmed_nonempty(gap_pieces(laid_out(names, offsets), offsets[i], current))
            == names.skip(i),
    decreases laid_out(names, offsets).len() - offsets[i], 0int,
{
    let header = laid_out(names, offsets);
    let name = names[i];
    let end = offsets[i] + name.len();
    lemma_header_layout_fits(names, offsets);
    lemma_laid_out(names, offsets);
    assert(is_column_name(name));
    lemma_scan_name(names, offsets, i, 0, current);
    assert(name.skip(0) =~= name);
    lemma_trim_drops_leading(current, name);
    if i == names.len() - 1 {
        assert(end == header.len());
        assert(gap_pieces(header, end, current + name) == seq![current + name]);
        lemma_trimmed_nonempty_first(current + name, Seq::empty());
        assert(seq![current + name] + Seq::<Seq<char>>::empty() =~= seq![current + name]);
        assert(trimmed_nonempty(Seq::<Seq<char>>::empty()) =~= Seq::<Seq<char>>::empty());
        assert(names.skip(i) =~= seq![name]);
    } else {
        assert(end + 5 <= offsets[i + 1]);
        assert(offsets[i + 1] < header.len()) by {
            assert(is_column_name(names[i + 1]));
            if i + 1 < names.len() - 1 {
                assert(offsets[i + 1] < offsets[names.len() - 1]);
            }
        }
        assert(wide_gap_at(header, end)) by {
            assert forall|q: int| end <= q < end + 5 implies header[q] == ' ' by {
                assert(offsets[i] + names[i].len() <= q < offsets[i + 1]);
            }
        }
        assert(gap_pieces(header, end, current + name) == seq![current + name] + gap_pieces(
            header,
            end + 5,
            Seq::empty(),
        ));
        lemma_trimmed_nonempty_first(current + name, gap_pieces(header, end + 5, Seq::empty()));
        assert forall|q: int| end + 5 <= q < offsets[i + 1] implies header[q] == ' ' by {
            assert(offsets[i] + names[i].len() <= q < offsets[i + 1]);
        }
        lemma_scan_from_gap(names, offsets, i + 1, end + 5);
        assert(names.skip(i) =~= seq![name] + names.skip(i + 1));
    }
}

/// Reading a header from inside the spaces before name `i` on gives the
/// names from `i` on.
#[verifier::spinoff_prover]
pub proof fn lemma_scan_from_gap(names: Seq<Seq<char>>, offsets: Seq<int>, i: int, p: int)
    requires
        is_header_layout(names, offsets),
        0 <= i < names.len(),
        0 <= p <= offsets[i],
        forall|q: int| p <= q < offsets[i] ==> laid_out(names, offsets)[q] == ' ',
    ensures
        trimmed_nonempty(gap_pieces(laid_out(names, offsets), p, Seq::empty())) == names.skip(i),
    decreases laid_out(names, offsets).len() - p, 1int,
{
    let header = laid_out(names, offsets);
    lemma_header_layout_fits(names, offsets);
    lemma_laid_out(names, offsets);
    assert(is_column_name(names[i]));
    assert(offsets[i] < header.len()) by {
        if i < names.len() - 1 {
            assert(offsets[i] < offsets[names.len() - 1]);
        }
    }
    if offsets[i] - p >= 5 {
        assert(wide_gap_at(header, p));
        assert(gap_pieces(header, p, Seq::empty()) == seq![Seq::<char>::empty()] + gap_pieces(
            header,
            p + 5,
            Seq::empty(),
        ));
        lemma_trimmed_nonempty_first(Seq::empty(), gap_pieces(header, p + 5, Seq::empty()));
        assert(trim(Seq::<char>::empty()) =~= Seq::<char>::empty());
        lemma_scan_from_gap(names, offsets, i, p + 5);
    } else {
        lemma_scan_spaces(names, offsets, i, p, Seq::empty());
        assert(Seq::<char>::empty() + filling(' ', offsets[i] - p) =~= filling(
            ' ',
            offsets[i] - p,
        ));
        lemma_scan_from_name(names, offsets, i, filling(' ', offsets[i] - p));
    }
}

/// A header that is laid out gives back its names.
#[verifier::spinoff_prover]
pub proof fn lemma_column_names_of_layout(names: Seq<Seq<char>>, offsets: Seq<int>)
    requires
        is_header_layout(names, offsets),
    ensures
        column_names(laid_out(names, offsets)) == names,
{
    if names.len() == 0 {
        assert(trimmed_nonempty(seq![Seq::<char>::empty()]) =~= Seq::<Seq<char>>::empty()) by {
            lemma_trimmed_nonempty_first(Seq::empty(), Seq::empty());
            assert(seq![Seq::<char>::empty()] + Seq::<Seq<char>>::empty() =~= seq![
                Seq::<char>::empty(),
            ]);
            assert(trim(Seq::<char>::empty()) =~= Seq::<char>::empty());
            assert(trimmed_nonempty(Seq::<Seq<char>>::empty()) =~= Seq::<Seq<char>>::empty());
        }
        assert(names =~= Seq::<Seq<char>>::empty());
    } else {
        lemma_header_layout_fits(names, offsets);
        lemma_laid_out_start(names, offsets);
        lemma_scan_from_gap(names, offsets, 0, 0);
        assert(names.skip(0) =~= names);
    }
}

/// Where each name first occurs in the header at its offset, the offsets
/// of the names are those offsets.
pub proof fn lemma_column_offsets_given(
    header: Seq<char>,
    names: Seq<Seq<char>>,
    offsets: Seq<int>,
)
    requires
        names.len() == offsets.len(),
        forall|i: int|
            0 <= i < names.len() ==> first_occurrence(header, #[trigger] names[i]) == Some(
                offsets[i],
            ),
    ensures
        column_offsets(header, names) == offsets,
    decreases names.len(),
{
    if names.len() > 0 {
        let n = names.len() as int;
        assert forall|i: int| 0 <= i < n - 1 implies first_occurrence(
            header,
            #[trigger] names.drop_last()[i],
        ) == Some(offsets.drop_last()[i]) by {
            assert(names.drop_last()[i] == names[i]);
        }
        lemma_column_offsets_given(header, names.drop_last(), offsets.drop_last());
        assert(first_occurrence(header, names[n - 1]) == Some(offsets[n - 1]));
        assert(offsets.drop_last().push(offsets[n - 1]) =~= offsets);
    } else {
        assert(offsets =~= Seq::<int>::empty());
    }
}

/// The round trip of a fixed-width export. A header in which the names
/// stand at the offsets of their columns, each first occurring there, and a
/// line in which the values stand at those offsets give back the names and
/// the values, in the order of the columns, with empty cells for the
/// columns at the end of the line that have no value.
#[verifier::spinoff_prover]
pub proof fn lemma_fixed_width_rows_round_trip(
    names: Seq<Seq<char>>,
    offsets: Seq<int>,
    values: Seq<Seq<char>>,
)
    requires
        is_header_layout(names, offsets),
        fits_columns(values, offsets),
        forall|i: int|
            0 <= i < names.len() ==> first_occurrence(
                laid_out(names, offsets),
                #[trigger] names[i],
            ) == Some(offsets[i]),
        !is_divider(laid_out(names, offsets)),
        !is_divider(laid_out(values, offsets)),
    ensures
        fixed_width_rows(seq![seq![laid_out(names, offsets)], seq![laid_out(values, offsets)]])
            == seq![
            names,
            values + empty_cells(offsets.len() - values.len()),
        ],
{
    let header = laid_out(names, offsets);
    let line = laid_out(values, offsets);
    let row = values + empty_cells(offsets.len() - values.len());
    lemma_column_names_of_layout(names, offsets);
    lemma_column_offsets_given(header, names, offsets);
    lemma_header_row(names, offsets);
    lemma_fixed_width_round_trip(values, offsets);
    lemma_rows_given(header, line, names, offsets, row);
}

/// The rows of a header and one line, given the names and offsets that the
/// header gives and the rows that the two lines give at those offsets.
pub proof fn lemma_rows_given(
    header: Seq<char>,
    line: Seq<char>,
    names: Seq<Seq<char>>,
    offsets: Seq<int>,
    row: Seq<Seq<char>>,
)
    requires
        !is_divider(header),
        !is_divider(line),
        column_names(header) == names,
        column_offsets(header, names) == offsets,
        padded(cells_at(header, offsets), names.len()) == names,
        padded(cells_at(line, offsets), names.len()) == row,
    ensures
        fixed_width_rows(seq![seq![header], seq![line]]) == seq![names, row],
{
    lemma_rows_of_header_and_line(header, line);
}

/// The row of a header that is laid out holds its names.
pub proof fn lemma_header_row(names: Seq<Seq<char>>, offsets: Seq<int>)
    requires
        is_header_layout(names, offsets),
    ensures
        padded(cells_at(laid_out(names, offsets), offsets), names.len()) == names,
{
    lemma_header_layout_fits(names, offsets);
    lemma_fixed_width_round_trip(names, offsets);
    assert(names + empty_cells(0) =~= names);
}

/// The rows of a header and one line, of which neither is a divider: the
/// row of the header and the row of the line.
pub proof fn lemma_rows_of_header_and_line(header: Seq<char>, line: Seq<char>)
    requires
        !is_divider(header),
        !is_divider(line),
    ensures
        fixed_width_rows(seq![seq![header], seq![line]]) == seq![
            padded(
                cells_at(header, column_offsets(header, column_names(header))),
                column_names(header).len(),
            ),
            padded(
                cells_at(line, column_offsets(header, column_names(header))),
                column_names(header).len(),
            ),
        ],
{
    let offsets = column_offsets(header, column_names(header));
    let width = column_names(header).len();
    let lines = seq![seq![header], seq![line]];
    let one = seq![seq![header]];
    let none = Seq::<Seq<Seq<char>>>::empty();
    assert(lines.drop_last() =~= one);
    assert(one.drop_last() =~= none);
    assert(first_cell(lines[0]) == header);
    assert(first_cell(lines.last()) == line);
    assert(first_cell(one.last()) == header);
    assert(rows_at(none, offsets, width) =~= Seq::<Seq<Seq<char>>>::empty());
    assert(rows_at(one, offsets, width) =~= seq![padded(cells_at(header, offsets), width)]);
    assert(rows_at(lines, offsets, width) =~= seq![
        padded(cells_at(header, offsets), width),
        padded(cells_at(line, offsets), width),
    ]);
}

/// The offsets as mathematical integers.
pub open spec fn as_ints(offsets: Seq<usize>) -> Seq<int> {
    Seq::new(offsets.len(), |i: int| offsets[i] as int)
}

/// Whether every character of `cell` is a dash.
pub fn is_divider_chars(cell: &[char]) -> (res: bool)
    ensures
        res == is_divider(cell@),
{
    let mut i: usize = 0;
    while i < cell.len()
        invariant
            i <= cell.len(),
            forall|j: int| 0 <= j < i ==> cell@[j] == '-',
        decreases cell.len() - i,
    {
        if cell[i] != '-' {
            return false;
        }
        i += 1;
    }
    true
}

/// Whether five spaces stand in `s` from index `i` on.
pub fn wide_gap_at_chars(s: &[char], i: usize) -> (res: bool)
    requires
        i < s.len(),
    ensures
        res == wide_gap_at(s@, i as int),
{
    if s.len() - i < 5 {
        return false;
    }
    let mut k: usize = 0;
    while k < 5
        invariant
            k <= 5,
            i + 5 <= s.len(),
            forall|j: int| i <= j < i + k ==> s@[j] == ' ',
        decreases 5 - k,
    {
        if s[i + k] != ' ' {
            return false;
        }
        k += 1;
    }
    true
}

/// The column names of a fixed-width header line.
pub fn column_names_chars(header: &[char]) -> (res: Vec<Vec<char>>)
    ensures
        views(res@) == column_names(header@),
{
    let mut pieces: Vec<Vec<char>> = Vec::new();
    let mut current: Vec<char> = Vec::new();
    let mut i: usize = 0;
    while i < header.len()
        invariant
            i <= header.len(),
            views(pieces@) + gap_pieces(header@, i as int, current@) == gap_pieces(
                header@,
                0,
                Seq::empty(),
            ),
        decreases header.len() - i,
    {
        if wide_gap_at_chars(header, i) {
            pieces.push(current);
            current = Vec::new();
            i += 5;
        } else {
            current.push(header[i]);
            i += 1;
        }
    }
    pieces.push(current);
    proof {
        assert(views(pieces@) == gap_pieces(header@, 0, Seq::empty()));
    }
    let mut names: Vec<Vec<char>> = Vec::new();
    let mut k: usize = 0;
    while k < pieces.len()
        invariant
            k <= pieces.len(),
            views(names@) == trimmed_nonempty(views(pieces@).take(k as int)),
        decreases pieces.len() - k,
    {
        let name = trim_chars(pieces[k].as_slice());
        proof {
            let next = views(pieces@).take(k + 1);
            assert(next.drop_last() =~= views(pieces@).take(k as int));
        }
        if name.len() > 0 {
            names.push(name);
        }
        k += 1;
    }
    proof {
        assert(views(pieces@).take(pieces.len() as int) =~= views(pieces@));
    }
    names
}

/// The offsets of the column names in the header.
pub fn column_offsets_chars(header: &[char], names: &Vec<Vec<char>>) -> (res: Vec<usize>)
    ensures
        as_ints(res@) == column_offsets(header@, views(names@)),
{
    let mut offsets: Vec<usize> = Vec::new();
    let mut k: usize = 0;
    while k < names.len()
        invariant
            k <= names.len(),
            as_ints(offsets@) == column_offsets(header@, views(names@).take(k as int)),
        decreases names.len() - k,
    {
        proof {
            let next = views(names@).take(k + 1);
            assert(next.drop_last() =~= views(names@).take(k as int));
        }
        match find_chars(header, names[k].as_slice()) {
            Some(offset) => {
                offsets.push(offset);
            },
            None => {},
        }
        k += 1;
    }
    proof {
        assert(views(names@).take(names.len() as int) =~= views(names@));
    }
    offsets
}

/// The cells of a fixed-width line, filled up to `width` cells.
pub fn split_fixed_width(line: &[char], offsets: &Vec<usize>, width: usize) -> (res: Vec<String>)
    ensures
        res.deep_view() == padded(cells_at(line@, as_ints(offsets@)), width as nat),
{
    // The cells from the last to the first.
    let mut collected: Vec<String> = Vec::new();
    let mut end: usize = line.len();
    let mut k: usize = offsets.len();
    proof {
        assert(line@.take(end as int) =~= line@);
        assert(as_ints(offsets@).take(k as int) =~= as_ints(offsets@));
    }
    while k > 0
        invariant
            k <= offsets.len(),
            end <= line.len(),
            cells_at(line@, as_ints(offsets@)) == cells_at(
                line@.take(end as int),
                as_ints(offsets@).take(k as int),
            ) + collected.deep_view().reverse(),
        decreases k,
    {
        k -= 1;
        let offset = offsets[k];
        proof {
            let before = as_ints(offsets@).take(k + 1);
            assert(before.drop_last() =~= as_ints(offsets@).take(k as int));
        }
        if offset < end {
            let part = slice_to_vec(line, offset, end);
            let trimmed = trim_chars(part.as_slice());
            let cell = from_chars(trimmed.as_slice());
            proof {
                let left = line@.take(end as int);
                assert(left.take(offset as int) =~= line@.take(offset as int));
                assert(left.skip(offset as int) =~= line@.subrange(offset as int, end as int));
            }
            collected.push(cell);
            end = offset;
        }
    }
    let mut cells: Vec<String> = Vec::new();
    let ghost all = cells_at(line@, as_ints(offsets@));
    while collected.len() > 0
        invariant
            cells.deep_view() + collected.deep_view().reverse() == all,
        decreases collected.len(),
    {
        let cell = collected.pop().unwrap();
        cells.push(cell);
    }
    while cells.len() < width
        invariant
            all.len() <= cells.len(),
            cells.len() <= width || cells.len() == all.len(),
            cells.deep_view() =~= all + empty_cells(cells.len() - all.len()),
        decreases width - cells.len(),
    {
        let ghost before = cells.deep_view();
        let cell = String::new();
        cells.push(cell);
        proof {
            assert(cells.deep_view() =~= before.push(Seq::<char>::empty()));
        }
    }
    cells
}

/// The characters of the first cell of a line.
pub fn first_cell_chars(line: &Vec<String>) -> (res: Vec<char>)
    ensures
        res@ == first_cell(line.deep_view()),
{
    if line.len() > 0 {
        to_chars(line[0].as_str())
    } else {
        Vec::new()
    }
}

/// Rebuilds the rows of a fixed-width text export. Each line comes as its
/// cells between tabs, of which only the first counts: it holds the whole
/// line.
pub fn read_serato_txt_lines(initial_lines: Vec<Vec<String>>) -> (res: Vec<Vec<String>>)
    ensures
        res.deep_view() == fixed_width_rows(initial_lines.deep_view()),
{
    let mut rows: Vec<Vec<String>> = Vec::new();
    if initial_lines.len() == 0 {
        return rows;
    }
    let header = first_cell_chars(&initial_lines[0]);
    let names = column_names_chars(header.as_slice());
    let offsets = column_offsets_chars(header.as_slice(), &names);
    let width = names.len();
    let ghost lines = initial_lines.deep_view();
    let mut i: usize = 0;
    while i < initial_lines.len()
        invariant
            i <= initial_lines.len(),
            lines == initial_lines.deep_view(),
            rows.deep_view() == rows_at(lines.take(i as int), as_ints(offsets@), width as nat),
        decreases initial_lines.len() - i,
    {
        let cell = first_cell_chars(&initial_lines[i]);
        proof {
            let next = lines.take(i + 1);
            assert(next.drop_last() =~= lines.take(i as int));
        }
        if !is_divider_chars(cell.as_slice()) {
            let row = split_fixed_width(cell.as_slice(), &offsets, width);
            rows.push(row);
        }
        i += 1;
    }
    proof {
        assert(lines.take(initial_lines.len() as int) =~= lines);
    }
    rows
}

/// How the first row of a history writes the start of the session.
pub const SESSION_START_FORMAT: &'static str = "%d.%m.%Y, %H.%M.%S %Z";

/// How a row writes the time at which a track started or ended.
pub const TIME_FORMAT: &'static str = "%H.%M.%S %Z";

/// How a row writes for how long a track was played.
pub const PLAYTIME_FORMAT: &'static str = "%H:%M:%S";

/// What a row says under `key`, where it has that field.
pub open spec fn field(row: Map<Seq<char>, Seq<char>>, key: Seq<char>) -> Option<Seq<char>> {
    if row.contains_key(key) {
        Some(row[key])
    } else {
        None
    }
}

/// What a row says under `key`; nothing where it lacks that field.
pub open spec fn field_or_empty(row: Map<Seq<char>, Seq<char>>, key: Seq<char>) -> Seq<char> {
    if row.contains_key(key) {
        row[key]
    } else {
        Seq::empty()
    }
}

/// The time that a row writes under `key` in the format `format`; none
/// where it lacks the field or the field cannot be parsed.
pub open spec fn field_time(
    row: Map<Seq<char>, Seq<char>>,
    key: Seq<char>,
    format: Seq<char>,
) -> Option<Time> {
    match field(row, key) {
        Some(text) => parsed_time(text, format),
        None => None,
    }
}

/// The given time on the given date.
pub open spec fn on_date(date: Date, time: Option<Time>) -> Option<DateTime> {
    match time {
        Some(time) => Some(DateTime { date, time }),
        None => None,
    }
}

/// For how long a track was played: what the row says outright, where it
/// says so, and else the span from start to end, where it gives both.
pub open spec fn play_time_of(
    start: Option<Time>,
    end: Option<Time>,
    explicit: Option<Time>,
) -> Option<Duration> {
    match explicit {
        Some(time) => Some(Duration { seconds: seconds_of_day(time) as i64 }),
        None => match (start, end) {
            (Some(from), Some(to)) => Some(
                Duration { seconds: (seconds_of_day(to) - seconds_of_day(from)) as i64 },
            ),
            _ => None,
        },
    }
}

/// The track of a row whose times have been parsed.
pub open spec fn track_with_times(
    artist: Seq<char>,
    title: Seq<char>,
    date: Date,
    start: Option<Time>,
    end: Option<Time>,
    explicit: Option<Time>,
) -> TrackView {
    TrackView {
        artist,
        title,
        start_time: on_date(date, start),
        end_time: on_date(date, end),
        play_time: play_time_of(start, end, explicit),
    }
}

/// The track of a row of a Serato history played on `date`.
pub open spec fn track_of_row(date: Date, row: Map<Seq<char>, Seq<char>>) -> TrackView {
    track_with_times(
        field_or_empty(row, "artist"@),
        field_or_empty(row, "name"@),
        date,
        field_time(row, "start time"@, TIME_FORMAT@),
        field_time(row, "end time"@, TIME_FORMAT@),
        field_time(row, "playtime"@, PLAYTIME_FORMAT@),
    )
}

/// The start of a session: what the history says outright, where it says
/// so, and else the date in the name of the playlist, where it has a name.
pub open spec fn session_date(structured: Option<DateTime>, name: Seq<char>) -> Option<DateTime> {
    match structured {
        Some(date) => Some(date),
        None => if name.len() > 0 {
            date_in_name(name)
        } else {
            None
        },
    }
}

/// The name of the playlist that the first row of a history gives.
pub open spec fn info_name(row: Map<Seq<char>, Seq<char>>) -> Seq<char> {
    field_or_empty(row, "name"@)
}

/// The start of the session that the first row of a history gives.
pub open spec fn info_date(row: Map<Seq<char>, Seq<char>>) -> Option<DateTime> {
    session_date(
        match field(row, "start time"@) {
            Some(text) => parsed_datetime(text, SESSION_START_FORMAT@),
            None => None,
        },
        info_name(row),
    )
}

/// What a sequence of rows says.
pub open spec fn row_views(rows: Seq<Row>) -> Seq<Map<Seq<char>, Seq<char>>> {
    Seq::new(rows.len(), |i: int| rows[i]@)
}

/// The date on which the tracks of a history were played: that of the
/// start of the session, and the first of January 1970 where none is known.
pub open spec fn start_date_of(playlist_date: Option<DateTime>) -> Date {
    match playlist_date {
        Some(start) => start.date,
        None => Date { year: 1970, month: 1, day: 1 },
    }
}

/// The tracks of the rows, one for each row.
pub open spec fn row_tracks(rows: Seq<Map<Seq<char>, Seq<char>>>, date: Date) -> Seq<TrackView> {
    Seq::new(rows.len(), |i: int| track_of_row(date, rows[i]))
}

/// The rows after the first.
pub open spec fn after_first<T>(rows: Seq<T>) -> Seq<T> {
    if rows.len() > 0 {
        rows.skip(1)
    } else {
        rows
    }
}

/// The tracks of a Serato history: those of its rows after the first, which
/// describes the session, with consecutive rows of one play merged. `None`
/// where a play time cannot be counted in 64 bits.
pub open spec fn serato_tracks(
    rows: Seq<Map<Seq<char>, Seq<char>>>,
    playlist_date: Option<DateTime>,
) -> Option<Seq<TrackView>> {
    merged(row_tracks(after_first(rows), start_date_of(playlist_date)))
}

/// The track of a row whose times have been parsed: `start` and `end` are
/// times on `date`, and `explicit` is the play time that the row gives
/// outright, written as a time of day.
pub fn track_from_times(
    artist: String,
    title: String,
    date: Date,
    start: Option<Time>,
    end: Option<Time>,
    explicit: Option<Time>,
) -> (res: Track)
    ensures
        res@ == track_with_times(artist@, title@, date, start, end, explicit),
{
    let start_time = match start {
        Some(time) => Some(date.and_time(time)),
        None => None,
    };
    let end_time = match end {
        Some(time) => Some(date.and_time(time)),
        None => None,
    };
    let play_time = match explicit {
        Some(time) => Some(time.to_duration()),
        None => match (start, end) {
            (Some(from), Some(to)) => Some(to.since(from)),
            _ => None,
        },
    };
    Track::new_with_time(artist, title, start_time, end_time, play_time)
}

/// What the row says under `key`, or an empty string.
pub fn text_field(row: &Row, key: &str) -> (res: String)
    ensures
        res@ == field_or_empty(row@, key@),
{
    match row.get(key) {
        Some(text) => text.clone(),
        None => String::new(),
    }
}

/// The time that the row writes under `key` in the format `format`.
pub fn time_field(row: &Row, key: &str, format: &str) -> (res: Option<Time>)
    ensures
        res == field_time(row@, key@, format@),
{
    match row.get(key) {
        Some(text) => parse_time(text.as_str(), format),
        None => None,
    }
}

/// The track of a row of a Serato history played on `start_date`. Times
/// that are missing or cannot be parsed are left out; they are no error.
pub fn parse_track_with_time_from_row(start_date: Date, row: &Row) -> (res: Track)
    ensures
        res@ == track_of_row(start_date, row@),
{
    let start = time_field(row, "start time", TIME_FORMAT);
    let end = time_field(row, "end time", TIME_FORMAT);
    let explicit = time_field(row, "playtime", PLAYTIME_FORMAT);
    track_from_times(
        text_field(row, "artist"),
        text_field(row, "name"),
        start_date,
        start,
        end,
        explicit,
    )
}

/// The start of a session, given what the history says outright and the
/// name of the playlist. What the history says wins over a date in the
/// name.
pub fn recover_session_date(structured: Option<DateTime>, name: &str) -> (res: Option<DateTime>)
    ensures
        res == session_date(structured, name@),
        structured is Some ==> res == structured,
{
    match structured {
        Some(date) => Some(date),
        None => {
            if name.unicode_len() > 0 {
                extract_datetime_from_name(name)
            } else {
                None
            }
        },
    }
}

/// The name of the playlist and the start of the session, read from the
/// first row of a Serato history.
pub fn parse_serato_playlist_info(data: &Row) -> (res: (String, Option<DateTime>))
    ensures
        res.0@ == info_name(data@),
        res.1 == info_date(data@),
{
    let playlist_name = text_field(data, "name");
    let structured = match data.get("start time") {
        Some(text) => parse_datetime(text.as_str(), SESSION_START_FORMAT),
        None => None,
    };
    let playlist_date = recover_session_date(structured, playlist_name.as_str());
    (playlist_name, playlist_date)
}

/// The tracks of a Serato history. The first row describes the session and
/// gives no track. The one error is that play times add up to more than 64
/// bits hold.
pub fn parse_serato_tracks_from_data(data: &[Row], playlist_date: Option<DateTime>) -> (res: Result<
    Vec<Track>,
    PlaylistError,
>)
    ensures
        match res {
            Ok(tracks) => serato_tracks(row_views(data@), playlist_date) == Some(
                track_views(tracks@),
            ),
            Err(error) => serato_tracks(row_views(data@), playlist_date) is None && error@
                == PlaylistErrorView::DurationOverflow,
        },
        // There is one track for each row after the first that does not
        // repeat the play of the row before it, no track repeats the play of
        // the track before it, and the play times add up to those of the rows.
        res matches Ok(tracks) ==> {
            let parsed = row_tracks(
                after_first(row_views(data@)),
                start_date_of(playlist_date),
            );
            &&& tracks.len() + repeats(parsed) == parsed.len()
            &&& parsed.len() == if data.len() > 0 {
                data.len() - 1
            } else {
                0
            }
            &&& no_repeats(track_views(tracks@))
            &&& total_seconds(track_views(tracks@)) == total_seconds(parsed)
        },
{
    proof {
        let parsed = row_tracks(after_first(row_views(data@)), start_date_of(playlist_date));
        if merged(parsed) is Some {
            lemma_merge_collapses_repeats(parsed);
            lemma_merge_keeps_total(parsed);
        }
    }
    let start_date = match playlist_date {
        Some(start) => start.date,
        None => Date::epoch(),
    };
    let ghost rest = after_first(row_views(data@));
    let mut initial_tracks: Vec<Track> = Vec::new();
    let mut i: usize = if data.len() > 0 {
        1
    } else {
        0
    };
    let first = i;
    while i < data.len()
        invariant
            first <= i <= data.len(),
            first == if data.len() > 0 {
                1usize
            } else {
                0usize
            },
            rest == after_first(row_views(data@)),
            track_views(initial_tracks@) =~= row_tracks(rest, start_date).take(i - first),
        decreases data.len() - i,
    {
        let track = parse_track_with_time_from_row(start_date, &data[i]);
        let ghost before = track_views(initial_tracks@);
        initial_tracks.push(track);
        proof {
            assert(track_views(initial_tracks@) =~= before.push(track@));
        }
        i += 1;
    }
    proof {
        assert(row_tracks(rest, start_date).take(data.len() - first) =~= row_tracks(
            rest,
            start_date,
        ));
    }
    match merge_consecutive(initial_tracks) {
        Some(tracks) => Ok(tracks),
        None => Err(PlaylistError::DurationOverflow),
    }
}

/// The name of the playlist and the start of the session that a history
/// gives in its first row; neither where it has no row.
pub open spec fn serato_info(rows: Seq<Map<Seq<char>, Seq<char>>>) -> (
    Seq<char>,
    Option<DateTime>,
) {
    if rows.len() > 0 {
        (info_name(rows[0]), info_date(rows[0]))
    } else {
        (Seq::empty(), None)
    }
}

/// The name of a Serato playlist: the one that the history gives and,
/// where it gives none, the name `name` that comes from the file.
pub open spec fn serato_name(rows: Seq<Map<Seq<char>, Seq<char>>>, name: Seq<char>) -> Seq<char> {
    if serato_info(rows).0.len() > 0 {
        serato_info(rows).0
    } else {
        name
    }
}

/// The start of the session of a Serato playlist: the one that the history
/// gives and, where it gives none, the date in the name of the playlist,
/// be it the name that the history gives or the one that comes from the
/// file.
pub open spec fn serato_date(rows: Seq<Map<Seq<char>, Seq<char>>>, name: Seq<char>) -> Option<
    DateTime,
> {
    session_date(serato_info(rows).1, serato_name(rows, name))
}

/// The playlist of a Serato history. Its tracks are played on the date of
/// the start of its session.
pub open spec fn serato_playlist(
    file_format: FileFormat,
    file: Seq<char>,
    name: Seq<char>,
    rows: Seq<Map<Seq<char>, Seq<char>>>,
) -> Result<PlaylistView, PlaylistErrorView> {
    match serato_tracks(rows, serato_date(rows, name)) {
        Some(tracks) => assembled(
            serato_date(rows, name),
            file_format,
            file,
            serato_name(rows, name),
            PlaylistType::Serato,
            tracks,
        ),
        None => Err(PlaylistErrorView::DurationOverflow),
    }
}

/// The playlist of a Serato text export with the given header.
pub open spec fn serato_txt_playlist(
    file: Seq<char>,
    name: Seq<char>,
    header: Map<Seq<char>, int>,
    rows: Seq<Map<Seq<char>, Seq<char>>>,
) -> Result<PlaylistView, PlaylistErrorView> {
    match missing_field(header, "artist"@, "name"@) {
        Some(field) => Err(
            PlaylistErrorView::MissingRequiredField { dialect: "Serato TXT"@, field },
        ),
        None => serato_playlist(FileFormat::Txt, file, name, rows),
    }
}

/// The playlist of the rows of a Serato history read from a file of the
/// format `file_format`.
pub fn read_serato_rows(file_format: FileFormat, file: &str, name: String, rows: &[Row]) -> (res:
    Result<Playlist, PlaylistError>)
    ensures
        says(res, serato_playlist(file_format, file@, name@, row_views(rows@))),
{
    let (playlist_name, playlist_date) = if rows.len() > 0 {
        parse_serato_playlist_info(&rows[0])
    } else {
        (String::new(), None)
    };
    let name = if playlist_name.as_str().unicode_len() > 0 {
        playlist_name
    } else {
        name
    };
    let date = recover_session_date(playlist_date, name.as_str());
    let tracks = match parse_serato_tracks_from_data(rows, date) {
        Ok(tracks) => tracks,
        Err(error) => {
            return Err(error);
        },
    };
    Playlist::assemble(date, file_format, file.to_owned(), name, PlaylistType::Serato, tracks)
}

/// The playlist of a Serato CSV export. `name` is the name that the
/// playlist has where the history gives none.
pub fn read_serato_csv(file: &str, name: String, data: &[Row]) -> (res: Result<
    Playlist,
    PlaylistError,
>)
    ensures
        says(res, serato_playlist(FileFormat::Csv, file@, name@, row_views(data@))),
{
    read_serato_rows(FileFormat::Csv, file, name, data)
}

/// The playlist of a Serato text export. The header must have the columns
/// `artist` and `name`. `name` is the name that the playlist has where the
/// history gives none.
pub fn read_serato_txt(file: &str, name: String, header: &HeaderMap, playlist_rows: &[Row]) -> (res:
    Result<Playlist, PlaylistError>)
    ensures
        says(res, serato_txt_playlist(file@, name@, header@, row_views(playlist_rows@))),
{
    match require_fields(header, "Serato TXT", "artist", "name") {
        Ok(_) => {},
        Err(error) => {
            return Err(error);
        },
    }
    read_serato_rows(FileFormat::Txt, file, name, playlist_rows)
}

} // verus!
