//! Metadata for comic-book archives.
//!
//! A comic-book archive is a zip container of page images with, optionally,
//! one entry `ComicInfo.xml` that describes the book. This crate holds the
//! document (`comicinfo`), its XML form (`codec`, over the tokens of `xml`),
//! the rules that read an entry's name (`names`), and the four operations on
//! an archive (`archive`): reading its metadata, counting its pages, handing
//! out its cover, and rewriting it around fresh metadata.
//!
//! Archives are taken and given as bytes. The zip container, the XML lexer
//! and base64 are the work of outside crates; what this crate assumes of
//! them is stated in `zipio`, `xml` and `cover`, on the items marked as
//! trusted, and `text` holds two such items for the standard library.
//! Everything else is proved against the contracts written here.

pub mod archive;
pub mod codec;
pub mod comicinfo;
pub mod cover;
pub mod decimal;
pub mod error;
pub mod names;
pub mod text;
pub mod xml;
pub mod zipio;
