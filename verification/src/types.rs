//! The kinds of playlist files and the formats they are written in.

use crate::error::{PlaylistError, PlaylistErrorView};
use crate::text::{same_chars, to_chars, trim, trim_chars};
use vstd::prelude::*;

verus! {

/// The format of a playlist file that can be read.
#[derive(Debug, Clone, Copy, PartialEq, Eq, Structural)]
pub enum FileFormat {
    Txt,
    Csv,
}

/// The format of a file that a playlist is written to.
#[derive(Debug, Clone, Copy, PartialEq, Eq, Structural)]
pub enum OutputFormat {
    Txt,
    Csv,
    Xlsx,
}

/// Which DJ software a playlist comes from. `Formatted` is a playlist that
/// this library has already brought into its own layout.
#[derive(Debug, Clone, Copy, PartialEq, Eq, Structural)]
pub enum PlaylistType {
    Rekordbox,
    Serato,
    Formatted,
}

/// The lower-case form of an ASCII capital; every other character as it is.
pub open spec fn lower(c: char) -> char {
    if 'A' <= c <= 'Z' {
        ((c as u8 + 32) as u8) as char
    } else {
        c
    }
}

/// `s` with its ASCII capitals in lower case.
pub open spec fn lowercase(s: Seq<char>) -> Seq<char> {
    Seq::new(s.len(), |i: int| lower(s[i]))
}

/// The word that names a format: the input in lower case, trimmed.
pub open spec fn format_word(input: Seq<char>) -> Seq<char> {
    trim(lowercase(input))
}

/// The file format that `input` names, whatever its case and the
/// whitespace around it.
pub open spec fn file_format_of(input: Seq<char>) -> Result<FileFormat, PlaylistErrorView> {
    let word = format_word(input);
    if word == "csv"@ {
        Ok(FileFormat::Csv)
    } else if word == "txt"@ {
        Ok(FileFormat::Txt)
    } else if word.len() == 0 {
        Err(PlaylistErrorView::EmptyFormat)
    } else {
        Err(PlaylistErrorView::UnknownFormat { format: input })
    }
}

/// The output format that `input` names, whatever its case and the
/// whitespace around it.
pub open spec fn output_format_of(input: Seq<char>) -> Result<OutputFormat, PlaylistErrorView> {
    let word = format_word(input);
    if word == "csv"@ {
        Ok(OutputFormat::Csv)
    } else if word == "txt"@ {
        Ok(OutputFormat::Txt)
    } else if word == "xlsx"@ {
        Ok(OutputFormat::Xlsx)
    } else if word.len() == 0 {
        Err(PlaylistErrorView::EmptyFormat)
    } else {
        Err(PlaylistErrorView::UnknownFormat { format: input })
    }
}

/// What a result with an error says: the value as it is, the error by its
/// view.
pub open spec fn outcome<T>(res: Result<T, PlaylistError>) -> Result<T, PlaylistErrorView> {
    match res {
        Ok(value) => Ok(value),
        Err(error) => Err(error@),
    }
}

/// The lower-case form of `c`.
pub fn lower_char(c: char) -> (res: char)
    ensures
        res == lower(c),
{
    if 'A' <= c && c <= 'Z' {
        ((c as u8) + 32) as char
    } else {
        c
    }
}

/// The word that names a format.
pub fn format_word_chars(input: &str) -> (res: Vec<char>)
    ensures
        res@ == format_word(input@),
{
    let chars = to_chars(input);
    let mut lowered: Vec<char> = Vec::new();
    let mut i: usize = 0;
    while i < chars.len()
        invariant
            i <= chars.len(),
            lowered@ == lowercase(chars@).take(i as int),
        decreases chars.len() - i,
    {
        lowered.push(lower_char(chars[i]));
        i += 1;
    }
    proof {
        assert(lowercase(chars@).take(chars.len() as int) =~= lowercase(chars@));
    }
    trim_chars(lowered.as_slice())
}

/// Whether `word` holds the characters of `literal`.
pub fn is_word(word: &Vec<char>, literal: &str) -> (res: bool)
    ensures
        res == (word@ == literal@),
{
    let other = to_chars(literal);
    same_chars(word.as_slice(), other.as_slice())
}

impl FileFormat {
    /// The file format that `input` names: `csv` or `txt`, in any case and
    /// with whitespace around it.
    pub fn from_str(input: &str) -> (res: Result<FileFormat, PlaylistError>)
        ensures
            outcome(res) == file_format_of(input@),
    {
        let word = format_word_chars(input);
        if is_word(&word, "csv") {
            Ok(FileFormat::Csv)
        } else if is_word(&word, "txt") {
            Ok(FileFormat::Txt)
        } else if word.len() == 0 {
            Err(PlaylistError::EmptyFormat)
        } else {
            Err(PlaylistError::UnknownFormat { format: input.to_owned() })
        }
    }

    /// The name of the format.
    pub fn name(&self) -> (res: String)
        ensures
            res@ == file_format_name(*self),
    {
        match self {
            FileFormat::Txt => "Txt".to_owned(),
            FileFormat::Csv => "Csv".to_owned(),
        }
    }
}

/// The name of a file format.
pub open spec fn file_format_name(format: FileFormat) -> Seq<char> {
    match format {
        FileFormat::Txt => "Txt"@,
        FileFormat::Csv => "Csv"@,
    }
}

/// The name of an output format.
pub open spec fn output_format_name(format: OutputFormat) -> Seq<char> {
    match format {
        OutputFormat::Txt => "Txt"@,
        OutputFormat::Csv => "Csv"@,
        OutputFormat::Xlsx => "Xlsx"@,
    }
}

/// The name of a playlist type.
pub open spec fn playlist_type_name(kind: PlaylistType) -> Seq<char> {
    match kind {
        PlaylistType::Rekordbox => "Rekordbox"@,
        PlaylistType::Serato => "Serato"@,
        PlaylistType::Formatted => "Formatted"@,
    }
}

impl OutputFormat {
    /// The output format that `input` names: `csv`, `txt` or `xlsx`, in
    /// any case and with whitespace around it.
    pub fn from_str(input: &str) -> (res: Result<OutputFormat, PlaylistError>)
        ensures
            outcome(res) == output_format_of(input@),
    {
        let word = format_word_chars(input);
        if is_word(&word, "csv") {
            Ok(OutputFormat::Csv)
        } else if is_word(&word, "txt") {
            Ok(OutputFormat::Txt)
        } else if is_word(&word, "xlsx") {
            Ok(OutputFormat::Xlsx)
        } else if word.len() == 0 {
            Err(PlaylistError::EmptyFormat)
        } else {
            Err(PlaylistError::UnknownFormat { format: input.to_owned() })
        }
    }

    /// The name of the format.
    pub fn name(&self) -> (res: String)
        ensures
            res@ == output_format_name(*self),
    {
        match self {
            OutputFormat::Txt => "Txt".to_owned(),
            OutputFormat::Csv => "Csv".to_owned(),
            OutputFormat::Xlsx => "Xlsx".to_owned(),
        }
    }
}

impl Default for OutputFormat {
    fn default() -> (res: OutputFormat)
        ensures
            res == OutputFormat::Xlsx,
    {
        OutputFormat::Xlsx
    }
}

impl PlaylistType {
    /// The name of the playlist type.
    pub fn name(&self) -> (res: String)
        ensures
            res@ == playlist_type_name(*self),
    {
        match self {
            PlaylistType::Rekordbox => "Rekordbox".to_owned(),
            PlaylistType::Serato => "Serato".to_owned(),
            PlaylistType::Formatted => "Formatted".to_owned(),
        }
    }
}

} // verus!
