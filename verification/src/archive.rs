//! The archive engine: reading the metadata of a comic-book archive,
//! counting its pages, choosing its cover, and rewriting it around a fresh
//! metadata entry. Archives are taken and given as bytes; bringing them from
//! and to a file, and the rename that commits a rewrite, stay with the
//! caller.

use vstd::prelude::*;
use vstd::utf8::{decode_utf8, encode_utf8, valid_utf8};
use crate::codec::{encoded, parsed, reads_back};
use crate::comicinfo::{ComicInfo, Document};
use crate::error::{ArchiveError, EncodeError, ParseError, Step};
use crate::cover::{data_uri, data_uri_text, encodable, is_encodable};
use crate::names::{
    component_start, count_images, cover_index, cover_of, extension, file_name, has_metadata,
    image_count, is_image_name, is_metadata_entry, is_metadata_name, last_index_of,
    lemma_metadata_iff_present, metadata_index, metadata_of, mime_type, mime_type_of, texts,
};
use crate::text::{lowered, same_text, text_of_bytes};
use crate::zipio::{
    archive_entries, archive_methods, entry_count, entry_method, entry_name, finish_archive,
    io_error_text, new_writer, open_archive, read_entry, start_entry, write_content,
    writer_closes, writer_entries, writer_starts, writer_takes, zip_entries, zip_error_text,
    zip_image, zip_methods, ArchiveWriter, Method,
};

verus! {

/// The names of a list of entries.
pub open spec fn names_of(entries: Seq<(Seq<char>, Option<Seq<u8>>)>) -> Seq<Seq<char>> {
    entries.map_values(|e: (Seq<char>, Option<Seq<u8>>)| e.0)
}

/// The name under which a metadata entry is added to an archive that has
/// none.
pub open spec fn metadata_entry_name() -> Seq<char> {
    "ComicInfo.xml"@
}

/// The document that is written for `d` into an archive of `pages` page
/// images: `d` itself where it states a page count, else `d` with the page
/// count `pages`.
pub open spec fn with_page_count(d: Document, pages: i32) -> Document {
    if d.page_count is Some {
        d
    } else {
        Document { page_count: Some(pages), ..d }
    }
}

/// Whether a page count can be given to `d`: it states one, or the archive
/// holds no more page images than a page count can say.
pub open spec fn countable(d: Document, entries: Seq<(Seq<char>, Option<Seq<u8>>)>) -> bool {
    d.page_count is Some || image_count(names_of(entries)) <= i32::MAX
}

/// The document that is persisted for `d`: `d` with its page count filled in
/// from the archive where it states none.
pub open spec fn persisted(d: Document, entries: Seq<(Seq<char>, Option<Seq<u8>>)>) -> Document {
    with_page_count(d, image_count(names_of(entries)) as i32)
}

/// Every entry but the metadata entries can be read to its end.
pub open spec fn pages_readable(entries: Seq<(Seq<char>, Option<Seq<u8>>)>) -> bool {
    forall|i: int|
        0 <= i < entries.len() && !is_metadata_name((#[trigger] entries[i]).0) ==> entries[i].1
            is Some
}

/// The first `k` entries as they are written to the new archive: each under
/// its own name and at its own place, a metadata entry with `xml` for its
/// content and every other entry with the content it had.
pub open spec fn replaced(entries: Seq<(Seq<char>, Option<Seq<u8>>)>, xml: Seq<u8>, k: int) -> Seq<
    (Seq<char>, Seq<u8>),
> {
    Seq::new(
        k as nat,
        |i: int|
            (
                entries[i].0,
                if is_metadata_name(entries[i].0) {
                    xml
                } else {
                    entries[i].1.unwrap()
                },
            ),
    )
}

/// The entries of the rewritten archive: the old entries with the metadata
/// replaced where it stood, or, where there was none, the old entries and
/// after them a new entry `ComicInfo.xml`.
pub open spec fn rewritten(entries: Seq<(Seq<char>, Option<Seq<u8>>)>, xml: Seq<u8>) -> Seq<
    (Seq<char>, Seq<u8>),
> {
    let kept = replaced(entries, xml, entries.len() as int);
    if has_metadata(names_of(entries)) {
        kept
    } else {
        kept.push((metadata_entry_name(), xml))
    }
}

/// Entries as an archive lists them when each can be read to its end.
pub open spec fn stored(entries: Seq<(Seq<char>, Seq<u8>)>) -> Seq<(Seq<char>, Option<Seq<u8>>)> {
    entries.map_values(|e: (Seq<char>, Seq<u8>)| (e.0, Some(e.1)))
}

/// A row of `n` entries that are all held without compression.
pub open spec fn all_stored(n: nat) -> Seq<Option<Method>> {
    Seq::new(n, |i: int| Some(Method::Stored))
}

/// The writer takes one more entry: its name is of no more than 65535 bytes,
/// the writer starts an entry of that name, and it takes the content.
pub open spec fn takes_entry(held: Seq<(Seq<char>, Seq<u8>)>, name: Seq<char>, content: Seq<u8>) -> bool {
    &&& encode_utf8(name).len() <= 65535
    &&& writer_starts(held, name)
    &&& writer_takes(held.push((name, Seq::<u8>::empty())), content)
}

/// The writer takes `entries`, one after the other, from an empty archive
/// on.
pub open spec fn taken(entries: Seq<(Seq<char>, Seq<u8>)>) -> bool
    decreases entries.len(),
{
    if entries.len() == 0 {
        true
    } else {
        taken(entries.drop_last()) && takes_entry(
            entries.drop_last(),
            entries.last().0,
            entries.last().1,
        )
    }
}

/// The entries can be written: the writer takes each of them and then
/// closes the archive.
pub open spec fn writable(entries: Seq<(Seq<char>, Seq<u8>)>) -> bool {
    taken(entries) && writer_closes(entries)
}

/// The archive `bytes` reads as `entries`: it lists them, each under its
/// name and with its content, and holds each of them without compression.
pub open spec fn reads_as(bytes: Seq<u8>, entries: Seq<(Seq<char>, Seq<u8>)>) -> bool {
    zip_entries(bytes) == Some(stored(entries)) && zip_methods(bytes) == all_stored(entries.len())
}

/// The entries that `save_cbz` writes for the document `d` into an archive
/// of `entries`: the rewrite of `entries` around the text of the persisted
/// document, in UTF-8.
pub open spec fn saved_entries(d: Document, entries: Seq<(Seq<char>, Option<Seq<u8>>)>) -> Seq<
    (Seq<char>, Seq<u8>),
> {
    rewritten(entries, encode_utf8(encoded(persisted(d, entries))))
}

/// The archive `bytes` holds the document `d`: its first metadata entry is
/// text that is read as `d`, which is what `open_cbz` then answers.
pub open spec fn holds_document(bytes: Seq<u8>, d: Document) -> bool {
    &&& zip_entries(bytes) matches Some(entries)
    &&& metadata_of(names_of(entries)) matches Some(i)
    &&& entries[i].1 matches Some(content)
    &&& valid_utf8(content)
    &&& parsed(decode_utf8(content)) == Ok::<Document, ParseError>(d)
}

/// An I/O failure at `step`, with the text of the zip error.
fn zip_failure(step: Step, error: &zip::result::ZipError) -> (r: ArchiveError)
    ensures
        r matches ArchiveError::Io { step: s, .. } && s == step,
{
    ArchiveError::Io { step, cause: zip_error_text(error) }
}

/// An I/O failure at `step`, with the text of the I/O error.
fn io_failure(step: Step, error: &std::io::Error) -> (r: ArchiveError)
    ensures
        r matches ArchiveError::Io { step: s, .. } && s == step,
{
    ArchiveError::Io { step, cause: io_error_text(error) }
}

/// The names of the entries, in directory order.
fn list_names(archive: &zip::ZipArchive<std::io::Cursor<&[u8]>>) -> (names: Vec<String>)
    ensures
        texts(names@) == names_of(archive_entries(*archive)),
{
    let n = entry_count(archive);
    let mut names: Vec<String> = Vec::new();
    let mut i: usize = 0;
    while i < n
        invariant
            i <= n,
            n == archive_entries(*archive).len(),
            names.len() == i,
            forall|j: int| 0 <= j < i ==> (#[trigger] names@[j])@ == archive_entries(*archive)[j].0,
        decreases n - i,
    {
        match entry_name(archive, i) {
            Some(name) => {
                names.push(name);
            },
            None => {
                return names;
            },
        }
        i = i + 1;
    }
    assert(texts(names@) =~= names_of(archive_entries(*archive)));
    names
}

/// Turns a count of entries into a page count.
fn page_count_of(count: usize) -> (r: Option<i32>)
    ensures
        match r {
            Some(n) => n == count,
            None => count > i32::MAX,
        },
{
    if count <= 0x7fff_ffff {
        Some(count as i32)
    } else {
        None
    }
}

/// Counts the page images of an archive: the entries whose names have an
/// image extension, in any mixture of case.
pub fn get_page_count(archive: &[u8]) -> (r: Result<i32, ArchiveError>)
    ensures
        match r {
            Ok(n) => zip_entries(archive@) matches Some(entries) && n == image_count(
                names_of(entries),
            ),
            Err(ArchiveError::Io { step, .. }) => step == Step::ReadArchive && zip_entries(archive@)
                is None,
            Err(ArchiveError::TooManyPages) => zip_entries(archive@) matches Some(entries)
                && image_count(names_of(entries)) > i32::MAX,
            Err(_) => false,
        },
{
    match open_archive(archive) {
        Err(error) => Err(zip_failure(Step::ReadArchive, &error)),
        Ok(opened) => {
            let names = list_names(&opened);
            match page_count_of(count_images(&names)) {
                Some(n) => Ok(n),
                None => Err(ArchiveError::TooManyPages),
            }
        },
    }
}

/// Hands out the cover of an archive as a data URI. The cover is the page
/// image whose name sorts first, character by character; its content type
/// goes by the end of its name. An image so large that its base64 text has no
/// length on this machine counts as one that cannot be read.
pub fn extract_cover(archive: &[u8]) -> (r: Result<String, ArchiveError>)
    ensures
        match r {
            Ok(uri) => zip_entries(archive@) matches Some(entries) && cover_of(names_of(entries))
                matches Some(i) && entries[i].1 matches Some(data) && encodable(data) && uri@
                == data_uri_text(mime_type(entries[i].0), data),
            Err(ArchiveError::NotFound) => zip_entries(archive@) matches Some(entries) && cover_of(
                names_of(entries),
            ) is None,
            Err(ArchiveError::Io { step, .. }) => match zip_entries(archive@) {
                None => step == Step::ReadArchive,
                Some(entries) => {
                    &&& step == Step::ReadEntry
                    &&& cover_of(names_of(entries)) matches Some(i)
                    &&& entries[i].1 matches Some(data) ==> !encodable(data)
                },
            },
            Err(_) => false,
        },
{
    match open_archive(archive) {
        Err(error) => Err(zip_failure(Step::ReadArchive, &error)),
        Ok(opened) => {
            let mut opened = opened;
            let names = list_names(&opened);
            match cover_index(&names) {
                None => Err(ArchiveError::NotFound),
                Some(i) => {
                    assert(texts(names@)[i as int] == names@[i as int]@);
                    match read_entry(&mut opened, i) {
                        Err(error) => Err(zip_failure(Step::ReadEntry, &error)),
                        Ok(data) => {
                            if !is_encodable(data.as_slice()) {
                                return Err(
                                    ArchiveError::Io {
                                        step: Step::ReadEntry,
                                        cause: "image too large".to_owned(),
                                    },
                                );
                            }
                            Ok(data_uri(mime_type_of(names[i].as_str()), data.as_slice()))
                        },
                    }
                },
            }
        },
    }
}

/// Reads the metadata of an archive: the document in the first entry called
/// `comicinfo.xml` in any mixture of case, or the empty document where there
/// is no such entry.
pub fn open_cbz(archive: &[u8]) -> (r: Result<ComicInfo, ArchiveError>)
    ensures
        match r {
            Ok(info) => zip_entries(archive@) matches Some(entries) && match metadata_of(
                names_of(entries),
            ) {
                None => info@ == Document::empty(),
                Some(_) => holds_document(archive@, info@),
            },
            Err(ArchiveError::Io { step, .. }) => match zip_entries(archive@) {
                None => step == Step::ReadArchive,
                Some(entries) => {
                    &&& step == Step::ReadMetadata
                    &&& metadata_of(names_of(entries)) matches Some(i)
                    &&& entries[i].1 matches Some(bytes) ==> !valid_utf8(bytes)
                },
            },
            Err(ArchiveError::Parse(error)) => zip_entries(archive@) matches Some(entries)
                && metadata_of(names_of(entries)) matches Some(i) && entries[i].1 matches Some(
                bytes,
            ) && valid_utf8(bytes) && parsed(decode_utf8(bytes)) == Err::<Document, ParseError>(
                error,
            ),
            Err(_) => false,
        },
{
    match open_archive(archive) {
        Err(error) => Err(zip_failure(Step::ReadArchive, &error)),
        Ok(opened) => {
            let mut opened = opened;
            let names = list_names(&opened);
            match metadata_index(&names) {
                None => Ok(ComicInfo::default()),
                Some(i) => match read_entry(&mut opened, i) {
                    Err(error) => Err(zip_failure(Step::ReadMetadata, &error)),
                    Ok(bytes) => match text_of_bytes(bytes) {
                        None => Err(
                            ArchiveError::Io {
                                step: Step::ReadMetadata,
                                cause: "stream did not contain valid UTF-8".to_owned(),
                            },
                        ),
                        Some(text) => match ComicInfo::from_xml(text.as_str()) {
                            Ok(info) => Ok(info),
                            Err(error) => Err(ArchiveError::Parse(error)),
                        },
                    },
                },
            }
        },
    }
}

/// Starts the entry `name` in the new archive and writes `content` to it. It
/// hands the writer back exactly where the writer takes the entry.
fn add_entry(writer: ArchiveWriter, name: &str, content: &[u8], step: Step) -> (r: Result<
    ArchiveWriter,
    ArchiveError,
>)
    requires
        step == Step::WriteEntry || step == Step::WriteMetadata,
    ensures
        match r {
            Ok(next) => takes_entry(writer_entries(writer), name@, content@) && writer_entries(next)
                == writer_entries(writer).push((name@, content@)),
            Err(ArchiveError::Io { step: s, .. }) => !takes_entry(
                writer_entries(writer),
                name@,
                content@,
            ) && (s == step || s == Step::WriteContent),
            Err(_) => false,
        },
{
    let ghost held = writer_entries(writer);
    if name.as_bytes().len() > 65535 {
        return Err(ArchiveError::Io { step, cause: "entry name too long".to_owned() });
    }
    let started = match start_entry(writer, name) {
        Err(error) => {
            return Err(zip_failure(step, &error));
        },
        Ok(started) => started,
    };
    match write_content(started, content) {
        Err(error) => Err(io_failure(Step::WriteContent, &error)),
        Ok(next) => {
            proof {
                let opened = held.push((name@, Seq::<u8>::empty()));
                assert(opened.drop_last() == held);
                assert(Seq::<u8>::empty() + content@ == content@);
            }
            Ok(next)
        },
    }
}

/// What the writer takes as a whole, it takes entry by entry: each run of
/// entries from the start is taken too.
pub proof fn lemma_taken_prefix(entries: Seq<(Seq<char>, Seq<u8>)>, k: int)
    requires
        taken(entries),
        0 <= k <= entries.len(),
    ensures
        taken(entries.take(k)),
    decreases entries.len(),
{
    if k == entries.len() {
        assert(entries.take(k) == entries);
    } else {
        lemma_taken_prefix(entries.drop_last(), k);
        assert(entries.drop_last().take(k) == entries.take(k));
    }
}

/// Rewrites an archive around the metadata `comic_info` and hands out the
/// bytes of the new archive.
///
/// Where `comic_info` states no page count, the number of page images in the
/// archive is filled in first. The document is then encoded, and only after
/// that is the new archive begun: every entry goes over under its own name
/// and at its own place, stored without compression, a metadata entry with
/// the encoded document for its content and every other entry with the
/// content it had. Where the archive held no metadata entry, one called
/// `ComicInfo.xml` is added at the end.
///
/// The new archive is read back before it is handed out: what comes out of
/// here lists exactly the rewritten entries, holds each of them without
/// compression, and `open_cbz` finds in it the document that was persisted. A
/// caller that keeps archives in files writes the bytes beside the old file
/// and renames; until then nothing has touched the old archive.
///
/// The rewrite succeeds wherever the archive can be read with all its pages,
/// the document can be written, the writer takes the new entries, and the
/// archive it makes of them reads back as those entries. Each failure names
/// the first of these that did not hold.
pub fn save_cbz(archive: &[u8], comic_info: ComicInfo) -> (r: Result<Vec<u8>, ArchiveError>)
    ensures
        match r {
            Ok(bytes) => {
                &&& zip_entries(archive@) matches Some(entries)
                &&& countable(comic_info@, entries)
                &&& persisted(comic_info@, entries).valid()
                &&& reads_back(persisted(comic_info@, entries))
                &&& pages_readable(entries)
                &&& writable(saved_entries(comic_info@, entries))
                &&& bytes@ == zip_image(saved_entries(comic_info@, entries))
                &&& reads_as(bytes@, saved_entries(comic_info@, entries))
                &&& holds_document(bytes@, persisted(comic_info@, entries))
            },
            Err(ArchiveError::TooManyPages) => {
                &&& zip_entries(archive@) matches Some(entries)
                &&& !countable(comic_info@, entries)
            },
            Err(ArchiveError::Encode(error)) => {
                &&& zip_entries(archive@) matches Some(entries)
                &&& countable(comic_info@, entries)
                &&& match error {
                    EncodeError::InvalidRating => !persisted(comic_info@, entries).valid(),
                    EncodeError::NotReadBack => persisted(comic_info@, entries).valid()
                        && !reads_back(persisted(comic_info@, entries)),
                }
            },
            Err(ArchiveError::Io { step, .. }) => match zip_entries(archive@) {
                None => step == Step::ReadArchive,
                Some(entries) => {
                    &&& countable(comic_info@, entries)
                    &&& persisted(comic_info@, entries).valid()
                    &&& reads_back(persisted(comic_info@, entries))
                    &&& match step {
                        Step::ReadEntry => !pages_readable(entries),
                        Step::WriteEntry | Step::WriteContent | Step::WriteMetadata => !taken(
                            saved_entries(comic_info@, entries),
                        ),
                        Step::Finalize => {
                            &&& pages_readable(entries)
                            &&& taken(saved_entries(comic_info@, entries))
                            &&& !(writer_closes(saved_entries(comic_info@, entries)) && reads_as(
                                zip_image(saved_entries(comic_info@, entries)),
                                saved_entries(comic_info@, entries),
                            ))
                        },
                        _ => false,
                    }
                },
            },
            Err(_) => false,
        },
        zip_entries(archive@) matches Some(entries) ==> ({
            &&& countable(comic_info@, entries)
            &&& persisted(comic_info@, entries).valid()
            &&& reads_back(persisted(comic_info@, entries))
            &&& pages_readable(entries)
            &&& writable(saved_entries(comic_info@, entries))
            &&& reads_as(
                zip_image(saved_entries(comic_info@, entries)),
                saved_entries(comic_info@, entries),
            )
        } ==> r is Ok),
{
    let mut opened = match open_archive(archive) {
        Err(error) => {
            return Err(zip_failure(Step::ReadArchive, &error));
        },
        Ok(opened) => opened,
    };
    let ghost entries = archive_entries(opened);
    let names = list_names(&opened);
    let mut info = comic_info;
    if info.page_count.is_none() {
        match page_count_of(count_images(&names)) {
            None => {
                return Err(ArchiveError::TooManyPages);
            },
            Some(pages) => {
                info.page_count = Some(pages);
            },
        }
    }
    assert(info@ == persisted(comic_info@, entries));
    let xml = match info.to_xml() {
        Err(error) => {
            return Err(ArchiveError::Encode(error));
        },
        Ok(xml) => xml,
    };
    let content = xml.as_str().as_bytes();
    let ghost fresh = encode_utf8(xml@);
    let ghost new = rewritten(entries, fresh);
    assert(content@ == fresh) by {
        broadcast use vstd::string::group_string_axioms;
    }
    assert(new == saved_entries(comic_info@, entries));
    let mut writer = new_writer();
    let mut found = false;
    let mut i: usize = 0;
    assert(writer_entries(writer) =~= replaced(entries, fresh, 0));
    while i < names.len()
        invariant
            i <= names.len(),
            names.len() == entries.len(),
            zip_entries(archive@) == Some(entries),
            countable(comic_info@, entries),
            persisted(comic_info@, entries).valid(),
            reads_back(persisted(comic_info@, entries)),
            archive_entries(opened) == entries,
            texts(names@) == names_of(entries),
            content@ == fresh,
            new == rewritten(entries, fresh),
            new == saved_entries(comic_info@, entries),
            writer_entries(writer) == replaced(entries, fresh, i as int),
            taken(replaced(entries, fresh, i as int)),
            found == exists|j: int| 0 <= j < i && is_metadata_name(#[trigger] entries[j].0),
            forall|j: int|
                0 <= j < i && !is_metadata_name((#[trigger] entries[j]).0) ==> entries[j].1 is Some,
        decreases names.len() - i,
    {
        assert(entries[i as int].0 == texts(names@)[i as int]);
        assert(texts(names@)[i as int] == names@[i as int]@);
        let ghost held = replaced(entries, fresh, i as int);
        let ghost next = replaced(entries, fresh, i + 1);
        assert(next.drop_last() =~= held);
        assert(next =~= new.take(i + 1));
        let name = names[i].as_str();
        if is_metadata_entry(name) {
            found = true;
            writer = match add_entry(writer, name, content, Step::WriteEntry) {
                Err(error) => {
                    proof {
                        assert(!taken(next));
                        if taken(new) {
                            lemma_taken_prefix(new, i + 1);
                        }
                    }
                    return Err(error);
                },
                Ok(writer) => writer,
            };
        } else {
            let data = match read_entry(&mut opened, i) {
                Err(error) => {
                    return Err(zip_failure(Step::ReadEntry, &error));
                },
                Ok(data) => data,
            };
            writer = match add_entry(writer, name, data.as_slice(), Step::WriteEntry) {
                Err(error) => {
                    proof {
                        assert(!taken(next));
                        if taken(new) {
                            lemma_taken_prefix(new, i + 1);
                        }
                    }
                    return Err(error);
                },
                Ok(writer) => writer,
            };
        }
        assert(writer_entries(writer) =~= next);
        i = i + 1;
    }
    proof {
        assert(found == has_metadata(names_of(entries))) by {
            if found {
                let j = choose|j: int| 0 <= j < i && is_metadata_name(#[trigger] entries[j].0);
                assert(is_metadata_name(names_of(entries)[j]));
            }
            if has_metadata(names_of(entries)) {
                let j = choose|j: int|
                    0 <= j < names_of(entries).len() && is_metadata_name(
                        #[trigger] names_of(entries)[j],
                    );
                assert(is_metadata_name(entries[j].0));
            }
        }
    }
    let ghost kept = replaced(entries, fresh, i as int);
    if !found {
        assert(new.drop_last() =~= kept);
        writer = match add_entry(writer, "ComicInfo.xml", content, Step::WriteMetadata) {
            Err(error) => {
                return Err(error);
            },
            Ok(writer) => writer,
        };
    }
    assert(writer_entries(writer) == new);
    assert(taken(new));
    assert(pages_readable(entries));
    let bytes = match finish_archive(writer) {
        Err(error) => {
            return Err(zip_failure(Step::Finalize, &error));
        },
        Ok(bytes) => bytes,
    };
    if !reads_as_rewritten(bytes.as_slice(), &mut opened, &names, content) {
        return Err(
            ArchiveError::Io {
                step: Step::Finalize,
                cause: "the new archive does not read back as it was written".to_owned(),
            },
        );
    }
    proof {
        lemma_rewritten_holds_metadata(entries, fresh);
        vstd::utf8::encode_utf8_valid_utf8(xml@);
        vstd::utf8::encode_utf8_decode_utf8(xml@);
    }
    Ok(bytes)
}

/// Whether two runs of bytes are the same.
fn same_bytes(a: &[u8], b: &[u8]) -> (r: bool)
    ensures
        r == (a@ == b@),
{
    if a.len() != b.len() {
        return false;
    }
    let mut i: usize = 0;
    while i < a.len()
        invariant
            i <= a.len(),
            a.len() == b.len(),
            forall|j: int| 0 <= j < i ==> a@[j] == b@[j],
        decreases a.len() - i,
    {
        if a[i] != b[i] {
            return false;
        }
        i = i + 1;
    }
    assert(a@ =~= b@);
    true
}

/// Whether entry `index` of `archive` is called `name` and holds `content`.
fn entry_is(
    archive: &mut zip::ZipArchive<std::io::Cursor<&[u8]>>,
    index: usize,
    name: &str,
    content: &[u8],
) -> (r: bool)
    ensures
        archive_entries(*final(archive)) == archive_entries(*old(archive)),
        archive_methods(*final(archive)) == archive_methods(*old(archive)),
        r == (index < archive_entries(*old(archive)).len() && archive_entries(
            *old(archive),
        )[index as int] == (name@, Some(content@))),
{
    match entry_name(archive, index) {
        None => false,
        Some(found) => {
            if !same_text(found.as_str(), name) {
                return false;
            }
            match read_entry(archive, index) {
                Err(_) => false,
                Ok(data) => same_bytes(data.as_slice(), content),
            }
        },
    }
}

/// Whether entry `index` of `archive` is held without compression.
fn entry_is_stored(archive: &mut zip::ZipArchive<std::io::Cursor<&[u8]>>, index: usize) -> (r: bool)
    requires
        index < archive_methods(*old(archive)).len(),
    ensures
        archive_entries(*final(archive)) == archive_entries(*old(archive)),
        archive_methods(*final(archive)) == archive_methods(*old(archive)),
        r == (archive_methods(*old(archive))[index as int] == Some(Method::Stored)),
{
    match entry_method(archive, index) {
        Some(Method::Stored) => true,
        _ => false,
    }
}

/// Reads the new archive `bytes` back and tells whether it lists the rewrite
/// of the entries of `source`, each under its name and with its content, and
/// holds each without compression. It says yes exactly where every page of
/// `source` can be read and `bytes` reads as the rewritten entries.
fn reads_as_rewritten(
    bytes: &[u8],
    source: &mut zip::ZipArchive<std::io::Cursor<&[u8]>>,
    names: &Vec<String>,
    content: &[u8],
) -> (r: bool)
    requires
        texts(names@) == names_of(archive_entries(*old(source))),
    ensures
        archive_entries(*final(source)) == archive_entries(*old(source)),
        r == (pages_readable(archive_entries(*old(source))) && reads_as(
            bytes@,
            rewritten(archive_entries(*old(source)), content@),
        )),
{
    let ghost entries = archive_entries(*source);
    let ghost want = stored(rewritten(entries, content@));
    assert(names_of(entries).len() == entries.len());
    assert(want.len() == rewritten(entries, content@).len());
    let mut check = match open_archive(bytes) {
        Err(_) => {
            return false;
        },
        Ok(check) => check,
    };
    let ghost have = archive_entries(check);
    let ghost methods = archive_methods(check);
    let appended = metadata_index(names).is_none();
    let n = names.len();
    let total = entry_count(&check);
    if appended {
        if n == usize::MAX || total != n + 1 {
            return false;
        }
    } else if total != n {
        return false;
    }
    assert(texts(names@).len() == n);
    assert(rewritten(entries, content@).len() == total);
    let mut i: usize = 0;
    while i < n
        invariant
            i <= n,
            n <= total,
            n == names.len(),
            n == entries.len(),
            zip_entries(bytes@) == Some(have),
            zip_methods(bytes@) == methods,
            entries == archive_entries(*old(source)),
            archive_entries(*source) == entries,
            archive_entries(check) == have,
            archive_methods(check) == methods,
            methods.len() == total,
            texts(names@) == names_of(entries),
            want == stored(rewritten(entries, content@)),
            appended == !has_metadata(names_of(entries)),
            have.len() == want.len(),
            want.len() == total,
            forall|j: int| 0 <= j < i ==> #[trigger] have[j] == want[j],
            forall|j: int| 0 <= j < i ==> #[trigger] methods[j] == Some(Method::Stored),
            forall|j: int|
                0 <= j < i && !is_metadata_name((#[trigger] entries[j]).0) ==> entries[j].1 is Some,
        decreases n - i,
    {
        assert(entries[i as int].0 == texts(names@)[i as int]);
        assert(texts(names@)[i as int] == names@[i as int]@);
        let name = names[i].as_str();
        if is_metadata_entry(name) {
            if !entry_is(&mut check, i, name, content) {
                assert(have[i as int] != want[i as int]);
                return false;
            }
        } else {
            let data = match read_entry(source, i) {
                Err(_) => {
                    assert(!is_metadata_name(entries[i as int].0) && entries[i as int].1 is None);
                    return false;
                },
                Ok(data) => data,
            };
            if !entry_is(&mut check, i, name, data.as_slice()) {
                assert(have[i as int] != want[i as int]);
                return false;
            }
        }
        if !entry_is_stored(&mut check, i) {
            assert(methods[i as int] != all_stored(total as nat)[i as int]);
            return false;
        }
        i = i + 1;
    }
    if appended {
        if !entry_is(&mut check, n, "ComicInfo.xml", content) {
            assert(have[n as int] != want[n as int]);
            return false;
        }
        if !entry_is_stored(&mut check, n) {
            assert(methods[n as int] != all_stored(total as nat)[n as int]);
            return false;
        }
    }
    assert(have =~= want);
    assert(methods =~= all_stored(total as nat));
    true
}

/// In an archive without a metadata entry the rewrite keeps every entry as
/// it was, name and content, and adds one entry after them: `ComicInfo.xml`,
/// with the encoded document for its content.
pub proof fn lemma_rewrite_appends(entries: Seq<(Seq<char>, Option<Seq<u8>>)>, xml: Seq<u8>)
    requires
        !has_metadata(names_of(entries)),
        pages_readable(entries),
    ensures
        rewritten(entries, xml).len() == entries.len() + 1,
        rewritten(entries, xml).last() == (metadata_entry_name(), xml),
        forall|i: int|
            0 <= i < entries.len() ==> (#[trigger] stored(rewritten(entries, xml))[i]) == entries[i],
{
    assert forall|i: int| 0 <= i < entries.len() implies (#[trigger] stored(
        rewritten(entries, xml),
    )[i]) == entries[i] by {
        assert(!is_metadata_name(names_of(entries)[i]));
    }
}

/// In an archive with a metadata entry the rewrite adds no entry: every
/// entry keeps its place and its name in its own case, a metadata entry
/// takes the encoded document for its content, and every other entry keeps
/// the content it had.
pub proof fn lemma_rewrite_replaces(entries: Seq<(Seq<char>, Option<Seq<u8>>)>, xml: Seq<u8>)
    requires
        has_metadata(names_of(entries)),
        pages_readable(entries),
    ensures
        rewritten(entries, xml).len() == entries.len(),
        forall|i: int|
            0 <= i < entries.len() ==> (#[trigger] rewritten(entries, xml)[i]).0 == entries[i].0,
        forall|i: int|
            0 <= i < entries.len() && is_metadata_name(entries[i].0) ==> (#[trigger] rewritten(
                entries,
                xml,
            )[i]).1 == xml,
        forall|i: int|
            0 <= i < entries.len() && !is_metadata_name(entries[i].0) ==> (#[trigger] stored(
                rewritten(entries, xml),
            )[i]) == entries[i],
{
}

/// The document that is persisted always states a page count: the caller's
/// own, or the number of page images that `get_page_count` finds in the same
/// archive.
pub proof fn lemma_persisted_page_count(d: Document, entries: Seq<(Seq<char>, Option<Seq<u8>>)>)
    requires
        countable(d, entries),
    ensures
        persisted(d, entries).page_count is Some,
        d.page_count is None ==> persisted(d, entries).page_count == Some(
            image_count(names_of(entries)) as i32,
        ) && persisted(d, entries).page_count.unwrap() == image_count(names_of(entries)),
        d.page_count is Some ==> persisted(d, entries) == d,
{
}

/// The name under which a metadata entry is added is a metadata name.
pub proof fn lemma_added_name_is_metadata()
    ensures
        is_metadata_name(metadata_entry_name()),
{
    reveal_strlit("ComicInfo.xml");
    reveal_strlit("comicinfo.xml");
    assert(lowered("ComicInfo.xml"@) =~= "comicinfo.xml"@);
}

/// The rewritten archive has a metadata entry, and its first metadata entry
/// holds the encoded document.
pub proof fn lemma_rewritten_holds_metadata(
    entries: Seq<(Seq<char>, Option<Seq<u8>>)>,
    xml: Seq<u8>,
)
    ensures
        metadata_of(names_of(stored(rewritten(entries, xml)))) matches Some(i) && 0 <= i
            < rewritten(entries, xml).len() && stored(rewritten(entries, xml))[i].1 == Some(xml),
{
    let after = stored(rewritten(entries, xml));
    let names = names_of(after);
    lemma_added_name_is_metadata();
    if has_metadata(names_of(entries)) {
        let j = choose|j: int|
            0 <= j < names_of(entries).len() && is_metadata_name(#[trigger] names_of(entries)[j]);
        assert(is_metadata_name(names[j]));
    } else {
        assert(is_metadata_name(names[entries.len() as int]));
    }
    lemma_metadata_iff_present(names);
    let i = metadata_of(names)->Some_0;
    assert(is_metadata_name(names[i]));
    if i < entries.len() {
        assert(is_metadata_name(entries[i].0));
    }
}

/// The entry that a rewrite adds is no page image.
pub proof fn lemma_added_name_is_no_image()
    ensures
        !is_image_name(metadata_entry_name()),
{
    let name = metadata_entry_name();
    reveal_strlit("ComicInfo.xml");
    reveal_strlit("jpg");
    reveal_strlit("png");
    reveal_strlit("gif");
    reveal_strlit("bmp");
    reveal_strlit("jpeg");
    reveal_strlit("webp");
    reveal_with_fuel(last_index_of, 16);
    assert(last_index_of(name, '/') is None);
    assert(component_start(name) == 0);
    assert(name.subrange(0, 13) =~= name);
    assert(file_name(name) == Some(name));
    assert(last_index_of(name, '.') == Some(9int));
    let ext = name.subrange(10, 13);
    assert(extension(name) == Some(ext));
    assert(lowered(ext).len() == 3);
    assert(lowered(ext)[0] == 'x');
}

/// A rewrite leaves the page count as it was.
pub proof fn lemma_rewrite_keeps_page_count(
    entries: Seq<(Seq<char>, Option<Seq<u8>>)>,
    xml: Seq<u8>,
)
    ensures
        image_count(names_of(stored(rewritten(entries, xml)))) == image_count(names_of(entries)),
{
    let after = names_of(stored(rewritten(entries, xml)));
    if has_metadata(names_of(entries)) {
        assert(after =~= names_of(entries));
    } else {
        lemma_added_name_is_no_image();
        assert(after.drop_last() =~= names_of(entries));
        assert(after.last() == metadata_entry_name());
    }
}

/// Rewriting a rewritten archive around the same text changes nothing: no
/// second metadata entry is added, and every entry keeps its name, its place
/// and its content.
pub proof fn lemma_rewrite_is_idempotent(entries: Seq<(Seq<char>, Option<Seq<u8>>)>, xml: Seq<u8>)
    ensures
        rewritten(stored(rewritten(entries, xml)), xml) == rewritten(entries, xml),
        pages_readable(stored(rewritten(entries, xml))),
{
    let once = rewritten(entries, xml);
    let names = names_of(stored(once));
    lemma_rewritten_holds_metadata(entries, xml);
    lemma_metadata_iff_present(names);
    lemma_added_name_is_metadata();
    assert(rewritten(stored(once), xml) =~= once);
}

/// A second save of the same document into the archive that the first save
/// made persists the same document and writes the same entries.
pub proof fn lemma_second_save(d: Document, entries: Seq<(Seq<char>, Option<Seq<u8>>)>)
    requires
        countable(d, entries),
    ensures
        countable(d, stored(saved_entries(d, entries))),
        persisted(d, stored(saved_entries(d, entries))) == persisted(d, entries),
        saved_entries(d, stored(saved_entries(d, entries))) == saved_entries(d, entries),
        pages_readable(stored(saved_entries(d, entries))),
{
    let xml = encode_utf8(encoded(persisted(d, entries)));
    lemma_rewrite_keeps_page_count(entries, xml);
    lemma_rewrite_is_idempotent(entries, xml);
}

} // verus!
