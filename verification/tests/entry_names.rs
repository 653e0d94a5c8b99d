use cbz_meta::names::{
    count_images, cover_index, extension_span, is_image_entry, is_metadata_entry, metadata_index,
    mime_type_of, sorts_before,
};
use cbz_meta::text::{chars_of, folded_ends_with, folds_to, same_text, to_lower};

fn names(list: &[&str]) -> Vec<String> {
    list.iter().map(|s| s.to_string()).collect()
}

fn extension(name: &str) -> Option<String> {
    let chars = chars_of(name);
    extension_span(&chars).map(|(from, to)| chars[from..to].iter().collect())
}

#[test]
fn metadata_name_is_matched_in_any_case() {
    assert!(is_metadata_entry("ComicInfo.xml"));
    assert!(is_metadata_entry("comicinfo.xml"));
    assert!(is_metadata_entry("COMICINFO.XML"));
    assert!(is_metadata_entry("cOmIcInFo.XmL"));
    assert!(!is_metadata_entry("ComicInfo.xml "));
    assert!(!is_metadata_entry("dir/ComicInfo.xml"));
    assert!(!is_metadata_entry("ComicInfo"));
    assert!(!is_metadata_entry("ComicInfo.xmlx"));
    assert!(!is_metadata_entry(""));
    assert!(!is_metadata_entry("comic\u{131}nfo.xml"));
}

#[test]
fn image_extensions_are_matched_in_any_case() {
    for name in [
        "a.jpg", "a.JPG", "a.jpeg", "a.Jpeg", "a.png", "a.PNG", "a.gif", "a.webp", "a.WebP",
        "a.bmp", "dir/b.jpg", "a.tar.png", "a b.gif", "\u{e9}.jpg",
    ] {
        assert!(is_image_entry(name), "{}", name);
    }
    for name in [
        "a.txt", "a", "jpg", ".jpg", "dir/.png", "a.jpg.txt", "a.jpgx", "a.jp", "a.", "",
        "ComicInfo.xml", "a.tiff", "a.svg", "dir.jpg/readme", "..", "a/..",
    ] {
        assert!(!is_image_entry(name), "{}", name);
    }
}

#[test]
fn extension_follows_the_last_dot_of_the_file_name() {
    assert_eq!(extension("a.jpg"), Some("jpg".to_string()));
    assert_eq!(extension("a.tar.gz"), Some("gz".to_string()));
    assert_eq!(extension("dir.d/file"), None);
    assert_eq!(extension("dir.d/file.x"), Some("x".to_string()));
    assert_eq!(extension(".hidden"), None);
    assert_eq!(extension(".hidden.txt"), Some("txt".to_string()));
    assert_eq!(extension("name."), Some(String::new()));
    assert_eq!(extension("pages.jpg/"), Some("jpg".to_string()));
    assert_eq!(extension("pages.jpg/."), Some("jpg".to_string()));
    assert_eq!(extension("pages.jpg//"), Some("jpg".to_string()));
    assert_eq!(extension("a/.."), None);
    assert_eq!(extension(".."), None);
    assert_eq!(extension("."), None);
    assert_eq!(extension("/"), None);
    assert_eq!(extension(""), None);
    assert_eq!(extension("..a"), Some("a".to_string()));
}

#[test]
fn extension_agrees_with_the_standard_library() {
    for name in [
        "a.jpg", "a", ".a", "..a", "a.", "a..", "a/b.c", "a.b/c", "a.b/", "a.b/.", "a.b/..", "/",
        "", ".", "..", "./a.b", "a.b/./", "a//b.c//", "...", "a.b.c", "x/.y.z",
    ] {
        let expected = std::path::Path::new(name)
            .extension()
            .map(|e| e.to_str().unwrap().to_string());
        assert_eq!(extension(name), expected, "{:?}", name);
    }
}

#[test]
fn content_type_goes_by_the_end_of_the_name() {
    assert_eq!(mime_type_of("a.png"), "image/png");
    assert_eq!(mime_type_of("a.PNG"), "image/png");
    assert_eq!(mime_type_of("a.gif"), "image/gif");
    assert_eq!(mime_type_of("a.webp"), "image/webp");
    assert_eq!(mime_type_of("a.WEBP"), "image/webp");
    assert_eq!(mime_type_of("a.jpg"), "image/jpeg");
    assert_eq!(mime_type_of("a.jpeg"), "image/jpeg");
}

#[test]
fn bitmaps_are_served_as_jpeg() {
    assert_eq!(mime_type_of("a.bmp"), "image/jpeg");
    assert_eq!(mime_type_of("a.BMP"), "image/jpeg");
}

#[test]
fn counting_takes_images_only() {
    assert_eq!(count_images(&names(&[])), 0);
    assert_eq!(count_images(&names(&["001.jpg", "002.jpg", "cover.txt"])), 2);
    assert_eq!(
        count_images(&names(&["a.JPG", "b.Png", "c.gIf", "d.WEBP", "e.bmp", "f.jpeg", "ComicInfo.xml", "g"])),
        6
    );
    assert_eq!(count_images(&names(&["x.txt", "y.xml"])), 0);
}

#[test]
fn order_is_lexicographic_not_numeric() {
    assert!(sorts_before("page10.png", "page2.png"));
    assert!(!sorts_before("page2.png", "page10.png"));
    assert!(sorts_before("a", "b"));
    assert!(sorts_before("a", "aa"));
    assert!(sorts_before("", "a"));
    assert!(!sorts_before("a", "a"));
    assert!(!sorts_before("a", ""));
    assert!(sorts_before("Z", "a"));
    assert!(sorts_before("z", "\u{e9}"));
    assert!(sorts_before("\u{ffff}", "\u{10000}"));
}

#[test]
fn order_agrees_with_the_standard_library() {
    let list = ["", "a", "A", "aa", "ab", "b", "page10", "page2", "\u{e9}", "\u{1f600}", "z\u{0}"];
    for a in list {
        for b in list {
            assert_eq!(sorts_before(a, b), a < b, "{:?} {:?}", a, b);
        }
    }
}

#[test]
fn cover_is_the_image_that_sorts_first() {
    assert_eq!(cover_index(&names(&["page10.png", "page2.png"])), Some(0));
    assert_eq!(cover_index(&names(&["page2.png", "page10.png"])), Some(1));
    assert_eq!(cover_index(&names(&["b.jpg", "a.txt", "c.jpg", "a.jpg"])), Some(3));
    assert_eq!(cover_index(&names(&["ComicInfo.xml", "002.jpg", "001.jpg"])), Some(2));
    assert_eq!(cover_index(&names(&["a.jpg", "A.jpg"])), Some(1));
}

#[test]
fn cover_of_equal_names_is_the_first() {
    assert_eq!(cover_index(&names(&["b.png", "a.png", "a.png"])), Some(1));
}

#[test]
fn no_image_no_cover() {
    assert_eq!(cover_index(&names(&[])), None);
    assert_eq!(cover_index(&names(&["a.txt", "ComicInfo.xml"])), None);
}

#[test]
fn metadata_index_is_the_first_match() {
    assert_eq!(metadata_index(&names(&["a.jpg", "COMICINFO.XML", "comicinfo.xml"])), Some(1));
    assert_eq!(metadata_index(&names(&["a.jpg"])), None);
    assert_eq!(metadata_index(&names(&[])), None);
}

#[test]
fn text_helpers() {
    assert_eq!(to_lower('A'), 'a');
    assert_eq!(to_lower('Z'), 'z');
    assert_eq!(to_lower('a'), 'a');
    assert_eq!(to_lower('@'), '@');
    assert_eq!(to_lower('['), '[');
    assert_eq!(to_lower('\u{c9}'), '\u{c9}');
    assert_eq!(chars_of("a\u{e9}"), vec!['a', '\u{e9}']);
    let chars = chars_of("Hello.PNG");
    assert!(folds_to(&chars, 6, 9, "png"));
    assert!(!folds_to(&chars, 6, 9, "PNG"));
    assert!(!folds_to(&chars, 5, 9, "png"));
    assert!(folded_ends_with(&chars, ".png"));
    assert!(!folded_ends_with(&chars, ".jpg"));
    assert!(!folded_ends_with(&chars, "xhello.png"));
    assert!(same_text("abc", "abc"));
    assert!(!same_text("abc", "abd"));
    assert!(!same_text("abc", "ab"));
}
