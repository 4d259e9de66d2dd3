//! Header maps and rows: what a file says under which column name.

use crate::error::{PlaylistError, PlaylistErrorView};
use vstd::prelude::*;

verus! {

/// The map that a list of entries stands for. Of two entries with one key
/// the later one counts.
pub open spec fn entries_map<V>(entries: Seq<(Seq<char>, V)>) -> Map<Seq<char>, V>
    decreases entries.len(),
{
    if entries.len() == 0 {
        Map::empty()
    } else {
        entries_map(entries.drop_last()).insert(entries.last().0, entries.last().1)
    }
}

/// Whether entry `i` is the last entry with the key `key`.
pub open spec fn is_last_entry<V>(entries: Seq<(Seq<char>, V)>, key: Seq<char>, i: int) -> bool {
    &&& 0 <= i < entries.len()
    &&& entries[i].0 == key
    &&& forall|j: int| i < j < entries.len() ==> entries[j].0 != key
}

/// The map holds a key with the value of the last entry that has it.
pub proof fn lemma_entries_map_has<V>(entries: Seq<(Seq<char>, V)>, key: Seq<char>, i: int)
    requires
        is_last_entry(entries, key, i),
    ensures
        entries_map(entries).contains_key(key),
        entries_map(entries)[key] == entries[i].1,
    decreases entries.len(),
{
    if i < entries.len() - 1 {
        lemma_entries_map_has(entries.drop_last(), key, i);
    }
}

/// The map holds no key that no entry has.
pub proof fn lemma_entries_map_lacks<V>(entries: Seq<(Seq<char>, V)>, key: Seq<char>)
    requires
        forall|j: int| 0 <= j < entries.len() ==> entries[j].0 != key,
    ensures
        !entries_map(entries).contains_key(key),
    decreases entries.len(),
{
    if entries.len() > 0 {
        lemma_entries_map_lacks(entries.drop_last(), key);
    }
}

/// The entries that give each name its index.
pub open spec fn indexed(names: Seq<Seq<char>>) -> Seq<(Seq<char>, int)> {
    Seq::new(names.len(), |i: int| (names[i], i))
}

/// The map from each column name to its index. A name that stands twice
/// has the index of its last column.
pub open spec fn header_map(names: Seq<Seq<char>>) -> Map<Seq<char>, int> {
    entries_map(indexed(names))
}

/// The entries that pair the first names with the first cells, as far as
/// both reach.
pub open spec fn paired(names: Seq<Seq<char>>, cells: Seq<Seq<char>>) -> Seq<
    (Seq<char>, Seq<char>),
> {
    Seq::new(
        if names.len() <= cells.len() {
            names.len()
        } else {
            cells.len()
        },
        |i: int| (names[i], cells[i]),
    )
}

/// The row of a line: under each column name the cell of that column. A
/// column that the line does not reach has no cell, and of two columns
/// with one name the later one counts.
pub open spec fn row_of(names: Seq<Seq<char>>, cells: Seq<Seq<char>>) -> Map<Seq<char>, Seq<char>> {
    entries_map(paired(names, cells))
}

/// The column names of a file, each with its index.
#[derive(Debug, Clone)]
pub struct HeaderMap {
    names: Vec<String>,
}

impl View for HeaderMap {
    type V = Map<Seq<char>, int>;

    closed spec fn view(&self) -> Map<Seq<char>, int> {
        header_map(self.names.deep_view())
    }
}

impl HeaderMap {
    /// The column names in the order of their columns.
    pub closed spec fn names(&self) -> Seq<Seq<char>> {
        self.names.deep_view()
    }

    /// The header map of a list of column names.
    pub fn new(names: Vec<String>) -> (res: HeaderMap)
        ensures
            res.names() == names.deep_view(),
            res@ == header_map(names.deep_view()),
    {
        HeaderMap { names }
    }

    /// The number of columns.
    pub fn len(&self) -> (res: usize)
        ensures
            res == self.names().len(),
    {
        self.names.len()
    }

    /// The name of column `i`.
    pub fn name(&self, i: usize) -> (res: &String)
        requires
            i < self.names().len(),
        ensures
            res@ == self.names()[i as int],
    {
        &self.names[i]
    }

    /// The index of the column with the name `key`.
    pub fn get(&self, key: &str) -> (res: Option<usize>)
        ensures
            match res {
                Some(i) => self@.contains_key(key@) && self@[key@] == i as int && i
                    < self.names().len(),
                None => !self@.contains_key(key@),
            },
    {
        let wanted = key.to_owned();
        let ghost entries = indexed(self.names.deep_view());
        let mut i: usize = self.names.len();
        while i > 0
            invariant
                i <= self.names.len(),
                wanted@ == key@,
                entries == indexed(self.names.deep_view()),
                forall|j: int| i <= j < entries.len() ==> entries[j].0 != key@,
            decreases i,
        {
            i -= 1;
            if self.names[i] == wanted {
                proof {
                    lemma_entries_map_has(entries, key@, i as int);
                }
                return Some(i);
            }
        }
        proof {
            lemma_entries_map_lacks(entries, key@);
        }
        None
    }

    /// Whether a column has the name `key`.
    pub fn contains_key(&self, key: &str) -> (res: bool)
        ensures
            res == self@.contains_key(key@),
    {
        self.get(key).is_some()
    }
}

/// One line of a file: what it says under each column name.
#[derive(Debug, Clone)]
pub struct Row {
    entries: Vec<(String, String)>,
}

impl View for Row {
    type V = Map<Seq<char>, Seq<char>>;

    closed spec fn view(&self) -> Map<Seq<char>, Seq<char>> {
        entries_map(self.entries_view())
    }
}

impl Row {
    /// The entries by their texts.
    pub closed spec fn entries_view(&self) -> Seq<(Seq<char>, Seq<char>)> {
        Seq::new(self.entries@.len(), |i: int| (self.entries@[i].0@, self.entries@[i].1@))
    }

    /// A row without fields.
    pub fn new() -> (res: Row)
        ensures
            res@ == Map::<Seq<char>, Seq<char>>::empty(),
    {
        let res = Row { entries: Vec::new() };
        res
    }

    /// Sets the field `key` to `value`, whether or not the row has it.
    pub fn insert(&mut self, key: String, value: String)
        ensures
            final(self)@ == old(self)@.insert(key@, value@),
    {
        let ghost before = self.entries_view();
        self.entries.push((key, value));
        proof {
            assert(self.entries_view().drop_last() =~= before);
        }
    }

    /// The row of a line with the cells `cells` under the column names
    /// `names`.
    pub fn from_cells(names: &Vec<String>, cells: &Vec<String>) -> (res: Row)
        ensures
            res@ == row_of(names.deep_view(), cells.deep_view()),
    {
        let count = if names.len() <= cells.len() {
            names.len()
        } else {
            cells.len()
        };
        let mut row = Row { entries: Vec::new() };
        let ghost pairs = paired(names.deep_view(), cells.deep_view());
        let mut i: usize = 0;
        while i < count
            invariant
                i <= count,
                count <= names.len(),
                count <= cells.len(),
                count == pairs.len(),
                pairs == paired(names.deep_view(), cells.deep_view()),
                row.entries_view() =~= pairs.take(i as int),
            decreases count - i,
        {
            let name = names[i].clone();
            let cell = cells[i].clone();
            let ghost before = row.entries_view();
            row.entries.push((name, cell));
            proof {
                assert(row.entries_view() =~= before.push((name@, cell@)));
            }
            i += 1;
        }
        proof {
            assert(pairs.take(count as int) =~= pairs);
        }
        row
    }

    /// What the row says under `key`.
    pub fn get(&self, key: &str) -> (res: Option<&String>)
        ensures
            match res {
                Some(value) => self@.contains_key(key@) && self@[key@] == value@,
                None => !self@.contains_key(key@),
            },
    {
        let wanted = key.to_owned();
        let ghost entries = self.entries_view();
        let mut i: usize = self.entries.len();
        while i > 0
            invariant
                i <= self.entries.len(),
                wanted@ == key@,
                entries == self.entries_view(),
                forall|j: int| i <= j < entries.len() ==> entries[j].0 != key@,
            decreases i,
        {
            i -= 1;
            if self.entries[i].0 == wanted {
                proof {
                    lemma_entries_map_has(entries, key@, i as int);
                }
                return Some(&self.entries[i].1);
            }
        }
        proof {
            lemma_entries_map_lacks(entries, key@);
        }
        None
    }
}

/// The first of two required fields that the header lacks.
pub open spec fn missing_field(
    header: Map<Seq<char>, int>,
    first: Seq<char>,
    second: Seq<char>,
) -> Option<Seq<char>> {
    if !header.contains_key(first) {
        Some(first)
    } else if !header.contains_key(second) {
        Some(second)
    } else {
        None
    }
}

/// Checks that the header has the two fields that the dialect `dialect`
/// cannot do without. The error names the first one that is missing.
pub fn require_fields(header: &HeaderMap, dialect: &str, first: &str, second: &str) -> (res: Result<
    (),
    PlaylistError,
>)
    ensures
        match res {
            Ok(_) => missing_field(header@, first@, second@) is None,
            Err(error) => missing_field(header@, first@, second@) matches Some(field) && error@
                == (PlaylistErrorView::MissingRequiredField { dialect: dialect@, field }),
        },
{
    if !header.contains_key(first) {
        Err(
            PlaylistError::MissingRequiredField {
                dialect: dialect.to_owned(),
                field: first.to_owned(),
            },
        )
    } else if !header.contains_key(second) {
        Err(
            PlaylistError::MissingRequiredField {
                dialect: dialect.to_owned(),
                field: second.to_owned(),
            },
        )
    } else {
        Ok(())
    }
}

} // verus!
