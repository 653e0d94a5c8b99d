//! What can go wrong, and how each failure reads in words.

use vstd::prelude::*;
use crate::comicinfo::{field_tag, tag, FIELD_COUNT};

verus! {

/// Why a text is not a ComicInfo document. A field is named by its place in
/// the schema, which `field_tag` turns into its tag.
#[derive(Debug, Clone, Copy, PartialEq, Eq, Structural)]
pub enum ParseError {
    /// The text is not well-formed XML, or holds no complete root element.
    Malformed,
    /// The root element is not `ComicInfo`.
    UnexpectedRoot,
    /// A field occurs twice.
    DuplicateField { field: usize },
    /// The text of a numeric field is not a number of its type.
    InvalidNumber { field: usize },
    /// The text of an enumerated field is none of its labels.
    UnknownLabel { field: usize },
}

/// Why a document cannot be written.
#[derive(Debug, Clone, Copy, PartialEq, Eq, Structural)]
pub enum EncodeError {
    /// The community rating is not the text of a real number.
    InvalidRating,
    /// The text that was written is not read back as the tokens it was
    /// written from: a fault of the XML layer.
    NotReadBack,
}

/// The step of an operation at which the archive could not be read or
/// written.
#[derive(Debug, Clone, Copy, PartialEq, Eq, Structural)]
pub enum Step {
    /// Opening the bytes as an archive.
    ReadArchive,
    /// Reading the content of an entry.
    ReadEntry,
    /// Reading the metadata entry as text.
    ReadMetadata,
    /// Starting an entry of the new archive.
    WriteEntry,
    /// Writing the content of an entry of the new archive.
    WriteContent,
    /// Adding the metadata entry to the new archive.
    WriteMetadata,
    /// Closing the new archive and reading it back.
    Finalize,
}

/// Why an operation on an archive failed.
#[derive(Debug, Clone, PartialEq, Eq)]
pub enum ArchiveError {
    /// The archive could not be read or written; `cause` says why, in words.
    Io { step: Step, cause: String },
    /// The metadata entry is not a ComicInfo document.
    Parse(ParseError),
    /// The document cannot be written.
    Encode(EncodeError),
    /// The archive holds no page image.
    NotFound,
    /// The archive holds more page images than a page count can say.
    TooManyPages,
}

/// The tag of field `field`, or a question mark where the schema has no such
/// field.
pub open spec fn field_name(field: usize) -> Seq<char> {
    if field < FIELD_COUNT {
        tag(field as int)
    } else {
        "?"@
    }
}

impl ParseError {
    /// The failure in words.
    pub open spec fn text(self) -> Seq<char> {
        match self {
            ParseError::Malformed => "the text is not a well-formed document"@,
            ParseError::UnexpectedRoot => "the root element is not ComicInfo"@,
            ParseError::DuplicateField { field } => "duplicate field "@ + field_name(field),
            ParseError::InvalidNumber { field } => "invalid number in field "@ + field_name(field),
            ParseError::UnknownLabel { field } => "unknown label in field "@ + field_name(field),
        }
    }

    /// The failure in words.
    pub fn message(&self) -> (r: String)
        ensures
            r@ == self.text(),
    {
        match self {
            ParseError::Malformed => "the text is not a well-formed document".to_owned(),
            ParseError::UnexpectedRoot => "the root element is not ComicInfo".to_owned(),
            ParseError::DuplicateField { field } => "duplicate field ".to_owned().concat(
                name_of_field(*field),
            ),
            ParseError::InvalidNumber { field } => "invalid number in field ".to_owned().concat(
                name_of_field(*field),
            ),
            ParseError::UnknownLabel { field } => "unknown label in field ".to_owned().concat(
                name_of_field(*field),
            ),
        }
    }
}

/// The tag of field `field`, or a question mark.
fn name_of_field(field: usize) -> (r: &'static str)
    ensures
        r@ == field_name(field),
{
    if field < FIELD_COUNT {
        field_tag(field)
    } else {
        "?"
    }
}

impl EncodeError {
    /// The failure in words.
    pub open spec fn text(self) -> Seq<char> {
        match self {
            EncodeError::InvalidRating => "the community rating is not a number"@,
            EncodeError::NotReadBack => "the written text cannot be read back"@,
        }
    }

    /// The failure in words.
    pub fn message(&self) -> (r: String)
        ensures
            r@ == self.text(),
    {
        match self {
            EncodeError::InvalidRating => "the community rating is not a number".to_owned(),
            EncodeError::NotReadBack => "the written text cannot be read back".to_owned(),
        }
    }
}

impl Step {
    /// What was being done, in words.
    pub open spec fn text(self) -> Seq<char> {
        match self {
            Step::ReadArchive => "Failed to read archive"@,
            Step::ReadEntry => "Failed to read entry"@,
            Step::ReadMetadata => "Failed to read ComicInfo.xml"@,
            Step::WriteEntry => "Failed to write entry"@,
            Step::WriteContent => "Failed to write content"@,
            Step::WriteMetadata => "Failed to write ComicInfo.xml"@,
            Step::Finalize => "Failed to finalize archive"@,
        }
    }

    /// What was being done, in words.
    pub fn describe(&self) -> (r: &'static str)
        ensures
            r@ == self.text(),
    {
        match self {
            Step::ReadArchive => "Failed to read archive",
            Step::ReadEntry => "Failed to read entry",
            Step::ReadMetadata => "Failed to read ComicInfo.xml",
            Step::WriteEntry => "Failed to write entry",
            Step::WriteContent => "Failed to write content",
            Step::WriteMetadata => "Failed to write ComicInfo.xml",
            Step::Finalize => "Failed to finalize archive",
        }
    }
}

impl ArchiveError {
    /// The failure in words: what was being done, then the cause.
    pub open spec fn text(self) -> Seq<char> {
        match self {
            ArchiveError::Io { step, cause } => step.text() + ": "@ + cause@,
            ArchiveError::Parse(error) => "Failed to parse ComicInfo.xml: "@ + error.text(),
            ArchiveError::Encode(error) => "Failed to serialize ComicInfo: "@ + error.text(),
            ArchiveError::NotFound => "No images found in archive"@,
            ArchiveError::TooManyPages => "Too many images in archive"@,
        }
    }

    /// The failure in words: what was being done, then the cause.
    pub fn message(&self) -> (r: String)
        ensures
            r@ == self.text(),
    {
        match self {
            ArchiveError::Io { step, cause } => step.describe().to_owned().concat(": ").concat(
                cause.as_str(),
            ),
            ArchiveError::Parse(error) => "Failed to parse ComicInfo.xml: ".to_owned().concat(
                error.message().as_str(),
            ),
            ArchiveError::Encode(error) => "Failed to serialize ComicInfo: ".to_owned().concat(
                error.message().as_str(),
            ),
            ArchiveError::NotFound => "No images found in archive".to_owned(),
            ArchiveError::TooManyPages => "Too many images in archive".to_owned(),
        }
    }
}

} // verus!
