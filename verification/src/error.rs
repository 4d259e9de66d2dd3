//! The errors that reading a playlist can end in.

use vstd::prelude::*;
use vstd::string::StringExecFns;

verus! {

/// Why a playlist could not be read.
#[derive(Debug, Clone)]
pub enum PlaylistError {
    /// A format was asked of a blank string.
    EmptyFormat,
    /// The string names no format.
    UnknownFormat { format: String },
    /// The extension of the input file, or its lack of one, tells no format
    /// that can be read.
    UnsupportedFormat { file: String, extension: Option<String> },
    /// The header lacks a column that the dialect cannot do without.
    MissingRequiredField { dialect: String, field: String },
    /// A text file with the header of neither vendor.
    UnrecognizedDialect,
    /// The input could not be decoded as text.
    Decode { message: String },
    /// The header of a delimited file could not be read.
    Csv { message: String },
    /// Play times add up to more seconds than 64 bits hold.
    DurationOverflow,
}

/// What a `PlaylistError` says, its texts as sequences of characters.
pub enum PlaylistErrorView {
    EmptyFormat,
    UnknownFormat { format: Seq<char> },
    UnsupportedFormat { file: Seq<char>, extension: Option<Seq<char>> },
    MissingRequiredField { dialect: Seq<char>, field: Seq<char> },
    UnrecognizedDialect,
    Decode { message: Seq<char> },
    Csv { message: Seq<char> },
    DurationOverflow,
}

impl View for PlaylistError {
    type V = PlaylistErrorView;

    open spec fn view(&self) -> PlaylistErrorView {
        match self {
            PlaylistError::EmptyFormat => PlaylistErrorView::EmptyFormat,
            PlaylistError::UnknownFormat { format } => PlaylistErrorView::UnknownFormat {
                format: format@,
            },
            PlaylistError::UnsupportedFormat {
                file,
                extension,
            } => PlaylistErrorView::UnsupportedFormat {
                file: file@,
                extension: match extension {
                    Some(word) => Some(word@),
                    None => None,
                },
            },
            PlaylistError::MissingRequiredField {
                dialect,
                field,
            } => PlaylistErrorView::MissingRequiredField { dialect: dialect@, field: field@ },
            PlaylistError::UnrecognizedDialect => PlaylistErrorView::UnrecognizedDialect,
            PlaylistError::Decode { message } => PlaylistErrorView::Decode { message: message@ },
            PlaylistError::Csv { message } => PlaylistErrorView::Csv { message: message@ },
            PlaylistError::DurationOverflow => PlaylistErrorView::DurationOverflow,
        }
    }
}

/// What is said of a text file of no known dialect.
pub open spec fn unrecognized_text() -> Seq<char> {
    "Input file does not seem to be a valid Serato or Rekordbox txt playlist"@
}

/// What is said of play times that cannot be added up.
pub open spec fn overflow_text() -> Seq<char> {
    "Play times add up to more than can be counted"@
}

/// The message of an error, as it is shown to the user.
pub open spec fn message_of(error: PlaylistErrorView) -> Seq<char> {
    match error {
        PlaylistErrorView::EmptyFormat => "Can't convert empty string to file format"@,
        PlaylistErrorView::UnknownFormat { format } => "Unsupported file format: '"@ + format
            + "'"@,
        PlaylistErrorView::UnsupportedFormat { file, extension } => match extension {
            Some(word) => "Unsupported file format: '"@ + word
                + "'. Supported file types are: Txt, Csv"@,
            None => "Input file has no file extension: '"@ + file
                + "'. Supported file types are: Txt, Csv"@,
        },
        PlaylistErrorView::MissingRequiredField { dialect, field } => dialect
            + " missing required field: '"@ + field + "'"@,
        PlaylistErrorView::UnrecognizedDialect => unrecognized_text(),
        PlaylistErrorView::Decode { message } => message,
        PlaylistErrorView::Csv { message } => message,
        PlaylistErrorView::DurationOverflow => overflow_text(),
    }
}

impl PlaylistError {
    /// The message of this error, as it is shown to the user.
    pub fn message(&self) -> (res: String)
        ensures
            res@ == message_of(self@),
    {
        match self {
            PlaylistError::EmptyFormat => "Can't convert empty string to file format".to_owned(),
            PlaylistError::UnknownFormat { format } => {
                let mut text = "Unsupported file format: '".to_owned();
                text.append(format.as_str());
                text.append("'");
                text
            },
            PlaylistError::UnsupportedFormat { file, extension } => {
                match extension {
                    Some(word) => {
                        let mut text = "Unsupported file format: '".to_owned();
                        text.append(word.as_str());
                        text.append("'. Supported file types are: Txt, Csv");
                        text
                    },
                    None => {
                        let mut text = "Input file has no file extension: '".to_owned();
                        text.append(file.as_str());
                        text.append("'. Supported file types are: Txt, Csv");
                        text
                    },
                }
            },
            PlaylistError::MissingRequiredField { dialect, field } => {
                let mut text = dialect.clone();
                text.append(" missing required field: '");
                text.append(field.as_str());
                text.append("'");
                text
            },
            PlaylistError::UnrecognizedDialect => {
                "Input file does not seem to be a valid Serato or Rekordbox txt playlist".to_owned()
            },
            PlaylistError::Decode { message } => message.clone(),
            PlaylistError::Csv { message } => message.clone(),
            PlaylistError::DurationOverflow => {
                "Play times add up to more than can be counted".to_owned()
            },
        }
    }
}

} // verus!
