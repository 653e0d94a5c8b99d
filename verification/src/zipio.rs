//! The zip container, as far as this crate reads and writes it. Every item
//! here is a trusted statement about the `zip` crate (or about std where it
//! serves zip); nothing in this file is proved.
//!
//! An archive that is read is described by its entries in directory order,
//! each a name and, where the entry can be read to its end, its content, and
//! beside them by the compression method of each entry. A writer is described
//! by the entries it has been given so far. A writer is handed to each call
//! and handed back only where the call succeeds, so no writer is ever used
//! after a failure.

use vstd::prelude::*;

verus! {

#[verifier::external_type_specification]
#[verifier::external_body]
#[verifier::reject_recursive_types(R)]
pub struct ExZipArchive<R>(zip::ZipArchive<R>);

/// A `zip::ZipWriter` over a buffer in memory. The writer's own declaration
/// is bounded by I/O traits, so it is held here behind a struct whose inside
/// stays closed.
#[verifier::external_body]
pub struct ArchiveWriter {
    inner: zip::ZipWriter<std::io::Cursor<Vec<u8>>>,
}

#[verifier::external_type_specification]
#[verifier::external_body]
#[verifier::reject_recursive_types(T)]
pub struct ExCursor<T>(std::io::Cursor<T>);

#[verifier::external_type_specification]
#[verifier::external_body]
pub struct ExZipError(zip::result::ZipError);

#[verifier::external_type_specification]
#[verifier::external_body]
pub struct ExIoError(std::io::Error);

/// How an entry of an archive is held.
#[derive(Debug, Clone, Copy, PartialEq, Eq, Structural)]
pub enum Method {
    /// As it is, without compression.
    Stored,
    /// By any other method.
    Compressed,
}

/// What `zip` reads from `bytes`: `None` where it does not accept them as an
/// archive, else the entries of the central directory in directory order,
/// each with its name and, where the entry can be read to its end, its
/// decompressed content.
pub uninterp spec fn zip_entries(bytes: Seq<u8>) -> Option<Seq<(Seq<char>, Option<Seq<u8>>)>>;

/// The methods by which `zip` finds the entries of `bytes` held, in
/// directory order; `None` for an entry that it cannot reach.
pub uninterp spec fn zip_methods(bytes: Seq<u8>) -> Seq<Option<Method>>;

/// The methods of the entries of an open archive, as `zip_methods` lists
/// them.
pub uninterp spec fn archive_methods(archive: zip::ZipArchive<std::io::Cursor<&[u8]>>) -> Seq<
    Option<Method>,
>;

/// The entries that an open archive holds, as `zip_entries` lists them.
pub uninterp spec fn archive_entries(archive: zip::ZipArchive<std::io::Cursor<&[u8]>>) -> Seq<
    (Seq<char>, Option<Seq<u8>>),
>;

/// The entries that a writer has been given so far, each with the content
/// written to it.
pub uninterp spec fn writer_entries(writer: ArchiveWriter) -> Seq<(Seq<char>, Seq<u8>)>;

/// Whether a writer that holds `held` starts an entry called `name`. Among
/// what the writer refuses is a name that it holds already.
pub uninterp spec fn writer_starts(held: Seq<(Seq<char>, Seq<u8>)>, name: Seq<char>) -> bool;

/// Whether a writer that holds `held` takes `data` for its last entry. Among
/// what the writer refuses is data that carries the entry past four
/// gibibytes.
pub uninterp spec fn writer_takes(held: Seq<(Seq<char>, Seq<u8>)>, data: Seq<u8>) -> bool;

/// Whether a writer that holds `held` closes its archive.
pub uninterp spec fn writer_closes(held: Seq<(Seq<char>, Seq<u8>)>) -> bool;

/// The archive that `zip` writes for `entries`, stored without compression
/// and in this order.
pub uninterp spec fn zip_image(entries: Seq<(Seq<char>, Seq<u8>)>) -> Seq<u8>;

/// Opens `bytes` as an archive.
///
/// Trusted: `zip::ZipArchive::new` over a `Cursor`. It parses the central
/// directory and nothing else; what it finds depends on the bytes alone, the
/// method of each entry as much as its name.
#[verifier::external_body]
pub(crate) fn open_archive(bytes: &[u8]) -> (r: Result<
    zip::ZipArchive<std::io::Cursor<&[u8]>>,
    zip::result::ZipError,
>)
    ensures
        match r {
            Ok(archive) => zip_entries(bytes@) == Some(archive_entries(archive)) && zip_methods(
                bytes@,
            ) == archive_methods(archive),
            Err(_) => zip_entries(bytes@) is None,
        },
{
    zip::ZipArchive::new(std::io::Cursor::new(bytes))
}

/// The number of entries.
///
/// Trusted: `ZipArchive::len`, the size of the directory map, which holds
/// one record for each entry: its name and its method among the rest.
#[verifier::external_body]
pub(crate) fn entry_count(archive: &zip::ZipArchive<std::io::Cursor<&[u8]>>) -> (n: usize)
    ensures
        n == archive_entries(*archive).len() && n == archive_methods(*archive).len(),
{
    archive.len()
}

/// The name of entry `index`, in its own case.
///
/// Trusted: `ZipArchive::name_for_index`, which looks the index up in the
/// directory map and is `None` exactly where the index is out of range.
#[verifier::external_body]
pub(crate) fn entry_name(archive: &zip::ZipArchive<std::io::Cursor<&[u8]>>, index: usize) -> (r:
    Option<String>)
    ensures
        match r {
            Some(name) => index < archive_entries(*archive).len() && name@ == archive_entries(
                *archive,
            )[index as int].0,
            None => index >= archive_entries(*archive).len(),
        },
{
    archive.name_for_index(index).map(|name| name.to_string())
}

/// The decompressed content of entry `index`.
///
/// Trusted: `ZipArchive::by_index` followed by `Read::read_to_end` on the
/// entry it returns. Reading moves the cursor and leaves the directory as it
/// was; an index out of range is reported as an error.
#[verifier::external_body]
pub(crate) fn read_entry(archive: &mut zip::ZipArchive<std::io::Cursor<&[u8]>>, index: usize) -> (r:
    Result<Vec<u8>, zip::result::ZipError>)
    ensures
        archive_entries(*final(archive)) == archive_entries(*old(archive)),
        archive_methods(*final(archive)) == archive_methods(*old(archive)),
        match r {
            Ok(data) => index < archive_entries(*old(archive)).len() && archive_entries(
                *old(archive),
            )[index as int].1 == Some(data@),
            Err(_) => index < archive_entries(*old(archive)).len() ==> archive_entries(
                *old(archive),
            )[index as int].1 is None,
        },
{
    let mut data = Vec::new();
    std::io::Read::read_to_end(&mut archive.by_index(index)?, &mut data)?;
    Ok(data)
}

/// The method by which entry `index` is held.
///
/// Trusted: `ZipArchive::by_index_raw`, then `ZipFile::compression`, told
/// apart as `Stored` and everything else. Finding the entry moves the cursor
/// and leaves the directory as it was.
#[verifier::external_body]
pub(crate) fn entry_method(archive: &mut zip::ZipArchive<std::io::Cursor<&[u8]>>, index: usize) -> (r:
    Option<Method>)
    ensures
        archive_entries(*final(archive)) == archive_entries(*old(archive)),
        archive_methods(*final(archive)) == archive_methods(*old(archive)),
        index < archive_methods(*old(archive)).len() ==> r == archive_methods(
            *old(archive),
        )[index as int],
{
    Some(
        match archive.by_index_raw(index).ok()?.compression() {
            zip::CompressionMethod::Stored => Method::Stored,
            _ => Method::Compressed,
        },
    )
}

/// A writer over an empty buffer.
///
/// Trusted: `zip::ZipWriter::new` over a fresh `Cursor`.
#[verifier::external_body]
pub(crate) fn new_writer() -> (writer: ArchiveWriter)
    ensures
        writer_entries(writer) == Seq::<(Seq<char>, Seq<u8>)>::empty(),
{
    ArchiveWriter { inner: zip::ZipWriter::new(std::io::Cursor::new(Vec::new())) }
}

/// Starts a stored entry called `name`.
///
/// Trusted: `ZipWriter::start_file` with the default options, the method
/// `Stored` and the modification time that `DateTime::default` gives, so that
/// no clock is read. It closes the entry before and opens an empty one.
/// Whether it succeeds depends on what the writer holds and on the name
/// alone, and is given a name of its own rather than written out. A name of
/// more than 65535 bytes makes it panic, so callers keep to that bound.
#[verifier::external_body]
pub(crate) fn start_entry(writer: ArchiveWriter, name: &str) -> (r: Result<
    ArchiveWriter,
    zip::result::ZipError,
>)
    requires
        vstd::utf8::encode_utf8(name@).len() <= 65535,
    ensures
        match r {
            Ok(next) => writer_starts(writer_entries(writer), name@) && writer_entries(next)
                == writer_entries(writer).push((name@, Seq::<u8>::empty())),
            Err(_) => !writer_starts(writer_entries(writer), name@),
        },
{
    let mut writer = writer;
    let options = zip::write::SimpleFileOptions::default()
        .compression_method(zip::CompressionMethod::Stored)
        .last_modified_time(zip::DateTime::default());
    writer.inner.start_file(name, options)?;
    Ok(writer)
}

/// Appends `data` to the entry that was started last.
///
/// Trusted: `Write::write_all` on the writer, called while an entry is open.
/// Whether it succeeds depends on what the writer holds and on the data
/// alone, and is given a name of its own rather than written out.
#[verifier::external_body]
pub(crate) fn write_content(writer: ArchiveWriter, data: &[u8]) -> (r: Result<
    ArchiveWriter,
    std::io::Error,
>)
    requires
        writer_entries(writer).len() > 0,
    ensures
        match r {
            Ok(next) => writer_takes(writer_entries(writer), data@) && writer_entries(next)
                == writer_entries(writer).drop_last().push(
                (writer_entries(writer).last().0, writer_entries(writer).last().1 + data@),
            ),
            Err(_) => !writer_takes(writer_entries(writer), data@),
        },
{
    let mut writer = writer;
    std::io::Write::write_all(&mut writer.inner, data)?;
    Ok(writer)
}

/// Closes the archive and hands out its bytes.
///
/// Trusted: `ZipWriter::finish`, then `Cursor::into_inner`. The writer reads
/// no clock and draws no random number, so whether it closes, and the bytes
/// it then hands out, depend on the entries alone.
#[verifier::external_body]
pub(crate) fn finish_archive(writer: ArchiveWriter) -> (r: Result<
    Vec<u8>,
    zip::result::ZipError,
>)
    ensures
        match r {
            Ok(bytes) => writer_closes(writer_entries(writer)) && bytes@ == zip_image(
                writer_entries(writer),
            ),
            Err(_) => !writer_closes(writer_entries(writer)),
        },
{
    Ok(writer.inner.finish()?.into_inner())
}

/// The text of a zip error.
///
/// Trusted: `ZipError`'s `Display`.
#[verifier::external_body]
pub(crate) fn zip_error_text(error: &zip::result::ZipError) -> (text: String) {
    error.to_string()
}

/// The text of an I/O error.
///
/// Trusted: `std::io::Error`'s `Display`.
#[verifier::external_body]
pub(crate) fn io_error_text(error: &std::io::Error) -> (text: String) {
    error.to_string()
}

} // verus!
