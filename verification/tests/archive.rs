use std::io::{Cursor, Read, Write};

use cbz_meta::archive::{extract_cover, get_page_count, open_cbz, save_cbz};
use cbz_meta::comicinfo::{AgeRating, ComicInfo};
use cbz_meta::error::{ArchiveError, EncodeError, ParseError, Step};
use cbz_meta::cover::data_uri;

fn build(entries: &[(&str, &[u8])], method: zip::CompressionMethod) -> Vec<u8> {
    let mut writer = zip::ZipWriter::new(Cursor::new(Vec::new()));
    let options = zip::write::SimpleFileOptions::default().compression_method(method);
    for (name, data) in entries {
        writer.start_file(*name, options).unwrap();
        writer.write_all(data).unwrap();
    }
    writer.finish().unwrap().into_inner()
}

fn stored(entries: &[(&str, &[u8])]) -> Vec<u8> {
    build(entries, zip::CompressionMethod::Stored)
}

fn listing(bytes: &[u8]) -> Vec<(String, Vec<u8>)> {
    let mut archive = zip::ZipArchive::new(Cursor::new(bytes)).unwrap();
    let mut out = Vec::new();
    for i in 0..archive.len() {
        let mut file = archive.by_index(i).unwrap();
        let mut data = Vec::new();
        file.read_to_end(&mut data).unwrap();
        out.push((file.name().to_string(), data));
    }
    out
}

fn methods(bytes: &[u8]) -> Vec<zip::CompressionMethod> {
    let mut archive = zip::ZipArchive::new(Cursor::new(bytes)).unwrap();
    (0..archive.len()).map(|i| archive.by_index(i).unwrap().compression()).collect()
}

fn titled(title: &str) -> ComicInfo {
    let mut info = ComicInfo::default();
    info.title = Some(title.to_string());
    info
}

const DECLARATION: &str = "<?xml version=\"1.0\" encoding=\"utf-8\"?>\n";

#[test]
fn page_count_takes_images_in_any_case() {
    let archive = stored(&[
        ("001.JPG", b"a"),
        ("002.jpeg", b"b"),
        ("003.Png", b"c"),
        ("004.gif", b"d"),
        ("005.WebP", b"e"),
        ("006.bmp", b"f"),
        ("notes.txt", b"g"),
        ("ComicInfo.xml", b"<ComicInfo/>"),
        ("thumbs.db", b"h"),
    ]);
    assert_eq!(get_page_count(&archive), Ok(6));
}

#[test]
fn page_count_of_an_archive_without_images_is_zero() {
    assert_eq!(get_page_count(&stored(&[])), Ok(0));
    assert_eq!(get_page_count(&stored(&[("a.txt", b"a")])), Ok(0));
}

#[test]
fn page_count_of_what_is_no_archive_is_an_error() {
    match get_page_count(b"this is no zip archive") {
        Err(ArchiveError::Io { step, cause }) => {
            assert_eq!(step, Step::ReadArchive);
            assert!(!cause.is_empty());
        }
        other => panic!("{:?}", other),
    }
    assert!(matches!(
        get_page_count(b""),
        Err(ArchiveError::Io { step: Step::ReadArchive, .. })
    ));
}

#[test]
fn cover_is_chosen_by_lexicographic_order() {
    let archive = stored(&[("page2.png", b"two"), ("page10.png", b"ten")]);
    assert_eq!(extract_cover(&archive), Ok(data_uri("image/png", b"ten")));
    let archive = stored(&[("page10.png", b"ten"), ("page2.png", b"two")]);
    assert_eq!(extract_cover(&archive), Ok(data_uri("image/png", b"ten")));
}

#[test]
fn cover_is_a_data_uri() {
    let archive = stored(&[("b.jpg", b"later"), ("a.jpg", b"hello"), ("0.txt", b"text")]);
    assert_eq!(extract_cover(&archive), Ok("data:image/jpeg;base64,aGVsbG8=".to_string()));
}

#[test]
fn cover_content_type_goes_by_the_extension() {
    let archive = stored(&[("a.GIF", b"g")]);
    assert_eq!(extract_cover(&archive), Ok("data:image/gif;base64,Zw==".to_string()));
    let archive = stored(&[("a.webp", b"w")]);
    assert_eq!(extract_cover(&archive), Ok("data:image/webp;base64,dw==".to_string()));
    let archive = stored(&[("a.png", b"p")]);
    assert_eq!(extract_cover(&archive), Ok("data:image/png;base64,cA==".to_string()));
}

#[test]
fn cover_of_a_bitmap_is_served_as_jpeg() {
    let archive = stored(&[("a.bmp", b"BM")]);
    assert_eq!(extract_cover(&archive), Ok("data:image/jpeg;base64,Qk0=".to_string()));
}

#[test]
fn cover_of_an_archive_without_images_is_not_found() {
    let archive = stored(&[("ComicInfo.xml", b"<ComicInfo/>"), ("a.txt", b"a")]);
    assert_eq!(extract_cover(&archive), Err(ArchiveError::NotFound));
    assert_eq!(extract_cover(&stored(&[])), Err(ArchiveError::NotFound));
}

#[test]
fn cover_of_what_is_no_archive_is_an_error() {
    assert!(matches!(
        extract_cover(b"nothing"),
        Err(ArchiveError::Io { step: Step::ReadArchive, .. })
    ));
}

#[test]
fn cover_is_read_from_a_compressed_entry() {
    let data = vec![7u8; 5000];
    let archive = build(&[("a.png", &data)], zip::CompressionMethod::Deflated);
    assert_eq!(extract_cover(&archive), Ok(data_uri("image/png", &data)));
}

#[test]
fn data_uri_encodes_in_base64_with_padding() {
    assert_eq!(data_uri("image/png", b""), "data:image/png;base64,");
    assert_eq!(data_uri("image/png", b"f"), "data:image/png;base64,Zg==");
    assert_eq!(data_uri("image/png", b"fo"), "data:image/png;base64,Zm8=");
    assert_eq!(data_uri("image/png", b"foo"), "data:image/png;base64,Zm9v");
    assert_eq!(data_uri("image/png", b"foob"), "data:image/png;base64,Zm9vYg==");
    assert_eq!(data_uri("image/png", b"fooba"), "data:image/png;base64,Zm9vYmE=");
    assert_eq!(data_uri("image/png", b"foobar"), "data:image/png;base64,Zm9vYmFy");
    assert_eq!(data_uri("x/y", &[0xfb, 0xff, 0xfe]), "data:x/y;base64,+//+");
    assert_eq!(data_uri("x/y", &[0, 16, 131, 16, 81, 135]), "data:x/y;base64,ABCDEFGH");
}

#[test]
fn metadata_of_an_archive_without_any_is_empty() {
    let archive = stored(&[("001.jpg", b"a"), ("002.jpg", b"b"), ("cover.txt", b"c")]);
    assert_eq!(open_cbz(&archive), Ok(ComicInfo::default()));
    assert_eq!(open_cbz(&stored(&[])), Ok(ComicInfo::default()));
}

#[test]
fn metadata_is_read_from_the_entry_in_any_case() {
    let xml = b"<ComicInfo><Title>T</Title><AgeRating>Teen</AgeRating></ComicInfo>";
    for name in ["ComicInfo.xml", "comicinfo.xml", "COMICINFO.XML"] {
        let archive = stored(&[("001.jpg", b"a"), (name, xml)]);
        let info = open_cbz(&archive).unwrap();
        assert_eq!(info.title, Some("T".to_string()));
        assert_eq!(info.age_rating, Some(AgeRating::Teen));
    }
}

#[test]
fn metadata_is_read_from_the_first_match() {
    let archive = stored(&[
        ("COMICINFO.XML", b"<ComicInfo><Title>first</Title></ComicInfo>"),
        ("comicinfo.xml", b"<ComicInfo><Title>second</Title></ComicInfo>"),
    ]);
    assert_eq!(open_cbz(&archive), Ok(titled("first")));
}

#[test]
fn metadata_in_a_folder_is_not_the_metadata() {
    let archive = stored(&[("sub/ComicInfo.xml", b"<ComicInfo><Title>T</Title></ComicInfo>")]);
    assert_eq!(open_cbz(&archive), Ok(ComicInfo::default()));
}

#[test]
fn metadata_that_is_no_document_is_a_parse_error() {
    let archive = stored(&[("ComicInfo.xml", b"<Other/>")]);
    assert_eq!(open_cbz(&archive), Err(ArchiveError::Parse(ParseError::UnexpectedRoot)));
    let archive = stored(&[("ComicInfo.xml", b"<ComicInfo><Manga>?</Manga></ComicInfo>")]);
    assert_eq!(
        open_cbz(&archive),
        Err(ArchiveError::Parse(ParseError::UnknownLabel { field: 30 }))
    );
    let archive = stored(&[("ComicInfo.xml", b"<ComicInfo>")]);
    assert_eq!(open_cbz(&archive), Err(ArchiveError::Parse(ParseError::Malformed)));
}

#[test]
fn metadata_that_is_no_text_is_an_error() {
    let archive = stored(&[("ComicInfo.xml", &[0x3c, 0xff, 0xfe, 0x3e])]);
    assert!(matches!(
        open_cbz(&archive),
        Err(ArchiveError::Io { step: Step::ReadMetadata, .. })
    ));
}

#[test]
fn metadata_of_what_is_no_archive_is_an_error() {
    assert!(matches!(
        open_cbz(b"PK nothing"),
        Err(ArchiveError::Io { step: Step::ReadArchive, .. })
    ));
}

#[test]
fn save_adds_the_metadata_entry_where_there_is_none() {
    let archive = stored(&[("001.jpg", b"one"), ("002.jpg", b"two"), ("cover.txt", b"text")]);
    let saved = save_cbz(&archive, titled("Issue One")).unwrap();
    let xml = format!(
        "{}<ComicInfo><Title>Issue One</Title><PageCount>2</PageCount></ComicInfo>",
        DECLARATION
    );
    assert_eq!(
        listing(&saved),
        vec![
            ("001.jpg".to_string(), b"one".to_vec()),
            ("002.jpg".to_string(), b"two".to_vec()),
            ("cover.txt".to_string(), b"text".to_vec()),
            ("ComicInfo.xml".to_string(), xml.into_bytes()),
        ]
    );
}

#[test]
fn save_scenario_from_open_to_reopen() {
    let archive = stored(&[("001.jpg", b"one"), ("002.jpg", b"two"), ("cover.txt", b"text")]);
    assert_eq!(open_cbz(&archive), Ok(ComicInfo::default()));
    assert_eq!(get_page_count(&archive), Ok(2));
    let saved = save_cbz(&archive, titled("Issue One")).unwrap();
    let reopened = open_cbz(&saved).unwrap();
    assert_eq!(reopened.title, Some("Issue One".to_string()));
    assert_eq!(reopened.page_count, Some(2));
    let mut expected = titled("Issue One");
    expected.page_count = Some(2);
    assert_eq!(reopened, expected);
    let after = listing(&saved);
    let before = listing(&archive);
    assert_eq!(&after[..3], &before[..]);
    assert_eq!(after[3].0, "ComicInfo.xml");
    assert_eq!(get_page_count(&saved), Ok(2));
}

#[test]
fn save_replaces_the_metadata_entry_in_place() {
    let archive = stored(&[
        ("001.jpg", b"one"),
        ("COMICINFO.XML", b"<ComicInfo><Title>old</Title></ComicInfo>"),
        ("002.jpg", b"two"),
    ]);
    let saved = save_cbz(&archive, titled("new")).unwrap();
    let xml = format!(
        "{}<ComicInfo><Title>new</Title><PageCount>2</PageCount></ComicInfo>",
        DECLARATION
    );
    assert_eq!(
        listing(&saved),
        vec![
            ("001.jpg".to_string(), b"one".to_vec()),
            ("COMICINFO.XML".to_string(), xml.into_bytes()),
            ("002.jpg".to_string(), b"two".to_vec()),
        ]
    );
    assert_eq!(open_cbz(&saved).unwrap().title, Some("new".to_string()));
}

#[test]
fn save_replaces_every_metadata_entry() {
    let archive = stored(&[("comicinfo.xml", b"a"), ("ComicInfo.xml", b"b"), ("p.png", b"c")]);
    let saved = save_cbz(&archive, titled("t")).unwrap();
    let entries = listing(&saved);
    assert_eq!(entries.len(), 3);
    assert_eq!(entries[0].0, "comicinfo.xml");
    assert_eq!(entries[1].0, "ComicInfo.xml");
    assert_eq!(entries[0].1, entries[1].1);
    assert_eq!(entries[2], ("p.png".to_string(), b"c".to_vec()));
}

#[test]
fn save_does_not_read_the_old_metadata() {
    let archive = stored(&[("ComicInfo.xml", &[0xff, 0xfe]), ("p.png", b"c")]);
    let saved = save_cbz(&archive, titled("t")).unwrap();
    assert_eq!(open_cbz(&saved).unwrap().title, Some("t".to_string()));
}

#[test]
fn save_fills_in_the_page_count_that_counting_finds() {
    let archive = stored(&[("a.JPG", b"1"), ("b.png", b"2"), ("c.bmp", b"3"), ("d.txt", b"4")]);
    let pages = get_page_count(&archive).unwrap();
    assert_eq!(pages, 3);
    let saved = save_cbz(&archive, ComicInfo::default()).unwrap();
    assert_eq!(open_cbz(&saved).unwrap().page_count, Some(pages));
}

#[test]
fn save_keeps_a_page_count_that_is_given() {
    let archive = stored(&[("a.jpg", b"1"), ("b.jpg", b"2")]);
    let mut info = ComicInfo::default();
    info.page_count = Some(40);
    let saved = save_cbz(&archive, info).unwrap();
    assert_eq!(open_cbz(&saved).unwrap().page_count, Some(40));
    let mut info = ComicInfo::default();
    info.page_count = Some(-1);
    let saved = save_cbz(&archive, info).unwrap();
    assert_eq!(open_cbz(&saved).unwrap().page_count, Some(-1));
}

#[test]
fn save_stores_every_entry_without_compression() {
    let page = vec![42u8; 4096];
    let archive = build(
        &[("1.jpg", &page), ("ComicInfo.xml", b"<ComicInfo/>"), ("2.jpg", b"small")],
        zip::CompressionMethod::Deflated,
    );
    assert!(methods(&archive).iter().any(|m| *m == zip::CompressionMethod::Deflated));
    let saved = save_cbz(&archive, titled("t")).unwrap();
    assert!(methods(&saved).iter().all(|m| *m == zip::CompressionMethod::Stored));
    let entries = listing(&saved);
    assert_eq!(entries[0], ("1.jpg".to_string(), page));
    assert_eq!(entries[2], ("2.jpg".to_string(), b"small".to_vec()));
}

#[test]
fn save_keeps_names_and_order() {
    let archive = stored(&[
        ("z/\u{e9}t\u{e9}.png", b"1"),
        ("A b.txt", b"2"),
        ("dir/", b""),
        ("a", b"3"),
    ]);
    let saved = save_cbz(&archive, ComicInfo::default()).unwrap();
    let names: Vec<String> = listing(&saved).into_iter().map(|e| e.0).collect();
    assert_eq!(names, vec!["z/\u{e9}t\u{e9}.png", "A b.txt", "dir/", "a", "ComicInfo.xml"]);
}

#[test]
fn save_of_an_empty_archive_holds_the_metadata_only() {
    let saved = save_cbz(&stored(&[]), titled("t")).unwrap();
    let entries = listing(&saved);
    assert_eq!(entries.len(), 1);
    assert_eq!(entries[0].0, "ComicInfo.xml");
    assert_eq!(open_cbz(&saved).unwrap().page_count, Some(0));
}

#[test]
fn save_is_the_same_for_the_same_input() {
    let archive = stored(&[("a.jpg", b"1")]);
    assert_eq!(save_cbz(&archive, titled("t")), save_cbz(&archive, titled("t")));
}

#[test]
fn save_twice_keeps_one_metadata_entry() {
    let archive = stored(&[("a.jpg", b"1")]);
    let once = save_cbz(&archive, titled("one")).unwrap();
    let twice = save_cbz(&once, titled("two")).unwrap();
    let entries = listing(&twice);
    assert_eq!(entries.len(), 2);
    assert_eq!(open_cbz(&twice).unwrap().title, Some("two".to_string()));
}

#[test]
fn save_refuses_a_document_that_cannot_be_written() {
    let archive = stored(&[("a.jpg", b"1")]);
    let mut info = ComicInfo::default();
    info.community_rating = Some("high".to_string());
    assert_eq!(save_cbz(&archive, info), Err(ArchiveError::Encode(EncodeError::InvalidRating)));
}

#[test]
fn save_of_what_is_no_archive_is_an_error() {
    assert!(matches!(
        save_cbz(b"nothing", ComicInfo::default()),
        Err(ArchiveError::Io { step: Step::ReadArchive, .. })
    ));
}

#[test]
fn save_keeps_unusual_names() {
    let unusual = [
        "a\\b.jpg",
        "./dot.png",
        "../up.png",
        "/abs.png",
        " lead.png",
        "trail.png ",
        "sp ace.gif",
        "\u{4e2d}\u{6587}.jpg",
        "\u{1f600}.webp",
        "a\tb.bmp",
        "deep/er/and/deeper/page.jpeg",
        "UPPER.JPG",
        "no_extension",
        ".hidden",
        "quote'\".png",
        "amp&lt;.png",
    ];
    let entries: Vec<(&str, &[u8])> = unusual.iter().map(|n| (*n, n.as_bytes())).collect();
    let archive = stored(&entries);
    let saved = save_cbz(&archive, titled("t")).unwrap();
    let after = listing(&saved);
    assert_eq!(after.len(), unusual.len() + 1);
    for (i, name) in unusual.iter().enumerate() {
        assert_eq!(after[i].0, *name);
        assert_eq!(after[i].1, name.as_bytes());
    }
    assert_eq!(get_page_count(&saved), get_page_count(&archive));
}

#[test]
fn save_keeps_large_and_empty_entries() {
    let large: Vec<u8> = (0..300_000u32).map(|i| (i % 251) as u8).collect();
    let archive = build(
        &[("big.png", &large), ("empty.png", b""), ("ComicInfo.xml", b"")],
        zip::CompressionMethod::Deflated,
    );
    let saved = save_cbz(&archive, titled("t")).unwrap();
    let after = listing(&saved);
    assert_eq!(after[0], ("big.png".to_string(), large));
    assert_eq!(after[1], ("empty.png".to_string(), Vec::new()));
    assert_eq!(after[2].0, "ComicInfo.xml");
    assert_eq!(open_cbz(&saved).unwrap().page_count, Some(2));
}

#[test]
fn save_refuses_an_archive_with_a_damaged_page() {
    let page = vec![9u8; 2000];
    let mut archive = stored(&[("a.png", &page), ("b.png", b"fine")]);
    // Flip a byte of the first page's content: its checksum no longer holds.
    let at = archive.windows(4).position(|w| w == [9, 9, 9, 9]).unwrap();
    archive[at + 100] = 1;
    assert!(matches!(
        save_cbz(&archive, titled("t")),
        Err(ArchiveError::Io { step: Step::ReadEntry, .. })
    ));
    assert_eq!(get_page_count(&archive), Ok(2));
    assert!(matches!(
        extract_cover(&archive),
        Err(ArchiveError::Io { step: Step::ReadEntry, .. })
    ));
}

#[test]
fn failures_read_in_words() {
    let error = get_page_count(b"nothing").unwrap_err();
    assert!(error.message().starts_with("Failed to read archive: "));
    assert_eq!(ArchiveError::NotFound.message(), "No images found in archive");
    assert_eq!(
        ArchiveError::Parse(ParseError::UnknownLabel { field: 38 }).message(),
        "Failed to parse ComicInfo.xml: unknown label in field AgeRating"
    );
    assert_eq!(
        ArchiveError::Parse(ParseError::InvalidNumber { field: 3 }).message(),
        "Failed to parse ComicInfo.xml: invalid number in field Count"
    );
    assert_eq!(
        ArchiveError::Parse(ParseError::DuplicateField { field: 0 }).message(),
        "Failed to parse ComicInfo.xml: duplicate field Title"
    );
    assert_eq!(
        ArchiveError::Parse(ParseError::DuplicateField { field: 99 }).message(),
        "Failed to parse ComicInfo.xml: duplicate field ?"
    );
    assert_eq!(
        ArchiveError::Parse(ParseError::UnexpectedRoot).message(),
        "Failed to parse ComicInfo.xml: the root element is not ComicInfo"
    );
    assert_eq!(
        ArchiveError::Parse(ParseError::Malformed).message(),
        "Failed to parse ComicInfo.xml: the text is not a well-formed document"
    );
    assert_eq!(
        ArchiveError::Encode(EncodeError::InvalidRating).message(),
        "Failed to serialize ComicInfo: the community rating is not a number"
    );
    assert_eq!(
        ArchiveError::Encode(EncodeError::NotReadBack).message(),
        "Failed to serialize ComicInfo: the written text cannot be read back"
    );
    assert_eq!(ArchiveError::TooManyPages.message(), "Too many images in archive");
    assert_eq!(
        ArchiveError::Io { step: Step::Finalize, cause: "why".to_string() }.message(),
        "Failed to finalize archive: why"
    );
    assert_eq!(Step::ReadEntry.describe(), "Failed to read entry");
    assert_eq!(Step::ReadMetadata.describe(), "Failed to read ComicInfo.xml");
    assert_eq!(Step::WriteEntry.describe(), "Failed to write entry");
    assert_eq!(Step::WriteContent.describe(), "Failed to write content");
    assert_eq!(Step::WriteMetadata.describe(), "Failed to write ComicInfo.xml");
}

#[test]
fn save_refuses_a_name_that_no_archive_can_hold() {
    // An entry whose name is 40000 bytes of code page 437: read as text it
    // is 40000 letters of two bytes each, more than a zip entry can be named.
    let long = "a".repeat(40_000);
    let mut archive = stored(&[(&long, b"x"), ("b.png", b"y")]);
    let mut patched = 0;
    let mut i = 0;
    while i + long.len() <= archive.len() {
        if archive[i..i + long.len()].iter().all(|b| *b == b'a') {
            for b in &mut archive[i..i + long.len()] {
                *b = 0x80;
            }
            patched += 1;
            i += long.len();
        } else {
            i += 1;
        }
    }
    assert_eq!(patched, 2);
    assert_eq!(get_page_count(&archive), Ok(1));
    match save_cbz(&archive, titled("t")) {
        Err(ArchiveError::Io { step, cause }) => {
            assert_eq!(step, Step::WriteEntry);
            assert_eq!(cause, "entry name too long");
        }
        other => panic!("{:?}", other.map(|b| b.len())),
    }
}

#[test]
fn save_stores_the_added_metadata_without_compression() {
    let page = vec![3u8; 3000];
    let archive = build(&[("1.jpg", &page)], zip::CompressionMethod::Deflated);
    let saved = save_cbz(&archive, titled("t")).unwrap();
    assert_eq!(
        methods(&saved),
        vec![zip::CompressionMethod::Stored, zip::CompressionMethod::Stored]
    );
    assert_eq!(listing(&saved)[1].0, "ComicInfo.xml");
}

#[test]
fn save_a_second_time_leaves_the_same_archive() {
    let archive = build(
        &[("b.png", b"two"), ("a.png", b"one"), ("notes.txt", b"n")],
        zip::CompressionMethod::Deflated,
    );
    let once = save_cbz(&archive, titled("t")).unwrap();
    let twice = save_cbz(&once, titled("t")).unwrap();
    assert_eq!(twice, once);
    assert_eq!(listing(&twice), listing(&once));
    assert_eq!(open_cbz(&twice).unwrap().page_count, Some(2));
}
