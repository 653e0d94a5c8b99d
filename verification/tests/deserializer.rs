use cbz_meta::codec::find_field;
use cbz_meta::comicinfo::{ComicInfo, FIELD_COUNT};
use serde::de::{Deserialize, Deserializer, Error, IgnoredAny, MapAccess, Visitor};

const TAGS: [&str; 43] = [
    "Title", "Series", "Number", "Count", "Volume", "AlternateSeries", "AlternateNumber",
    "AlternateCount", "Summary", "Notes", "Year", "Month", "Day", "Writer", "Penciller", "Inker",
    "Colorist", "Letterer", "CoverArtist", "Editor", "Translator", "Publisher", "Imprint", "Genre",
    "Tags", "Web", "PageCount", "LanguageISO", "Format", "BlackAndWhite", "Manga", "Characters",
    "Teams", "Locations", "ScanInformation", "StoryArc", "StoryArcNumber", "SeriesGroup",
    "AgeRating", "CommunityRating", "MainCharacterOrTeam", "Review", "GTIN",
];

/// The texts of the fields, as a struct deserializer hands them out: known
/// children by their tags, every other child passed over.
#[derive(Debug, PartialEq)]
struct Record(Vec<Option<String>>);

struct RecordVisitor;

impl<'de> Visitor<'de> for RecordVisitor {
    type Value = Record;

    fn expecting(&self, formatter: &mut std::fmt::Formatter) -> std::fmt::Result {
        formatter.write_str("a ComicInfo element")
    }

    fn visit_map<A: MapAccess<'de>>(self, mut map: A) -> Result<Record, A::Error> {
        let mut slots: Vec<Option<String>> = vec![None; FIELD_COUNT];
        while let Some(key) = map.next_key::<String>()? {
            match find_field(&key) {
                Some(k) => {
                    if slots[k].is_some() {
                        return Err(A::Error::duplicate_field(TAGS[k]));
                    }
                    slots[k] = Some(map.next_value::<String>()?);
                }
                None => {
                    map.next_value::<IgnoredAny>()?;
                }
            }
        }
        Ok(Record(slots))
    }
}

impl<'de> Deserialize<'de> for Record {
    fn deserialize<D: Deserializer<'de>>(deserializer: D) -> Result<Self, D::Error> {
        deserializer.deserialize_struct("ComicInfo", &TAGS, RecordVisitor)
    }
}

fn by_the_deserializer(text: &str) -> Option<Vec<Option<String>>> {
    quick_xml::de::from_str::<Record>(text).ok().map(|r| r.0)
}

fn by_the_library(text: &str) -> Option<Vec<Option<String>>> {
    ComicInfo::from_xml(text).ok().map(|info| info.to_slots())
}

#[test]
fn the_tags_are_those_of_the_schema() {
    for k in 0..FIELD_COUNT {
        assert_eq!(cbz_meta::comicinfo::field_tag(k), TAGS[k]);
    }
}

#[test]
fn documents_are_read_as_the_deserializer_reads_them() {
    let documents = [
        "<ComicInfo/>",
        "<ComicInfo></ComicInfo>",
        "<ComicInfo><Title>T</Title></ComicInfo>",
        "<ComicInfo><Title>T</Title><Series>S</Series><Count>12</Count></ComicInfo>",
        "<ComicInfo><Title>a &amp; b &lt;c&gt; &quot;d&quot; &apos;e&apos; &#65;&#x42;</Title></ComicInfo>",
        "<ComicInfo><Title/><Web></Web></ComicInfo>",
        "<ComicInfo><Summary><![CDATA[1 < 2 & 3]]></Summary></ComicInfo>",
        "<ComicInfo><Unheard>of</Unheard><Title>T</Title></ComicInfo>",
        "<ComicInfo><Pages><Page Image=\"0\"/><Page Image=\"1\"/></Pages><Title>T</Title></ComicInfo>",
        "<?xml version=\"1.0\" encoding=\"utf-8\"?>\n<ComicInfo>\n  <Title>T</Title>\n  <Number>7</Number>\n</ComicInfo>\n",
        "<!-- c --><ComicInfo xmlns:xsi=\"http://www.w3.org/2001/XMLSchema-instance\"><!-- d --><Title>T</Title></ComicInfo>",
        "<ComicInfo><AgeRating>Mature 17+</AgeRating><Manga>Yes</Manga><CommunityRating>4.5</CommunityRating></ComicInfo>",
        "<ComicInfo><Title>two words</Title><Notes>line\nbreak</Notes></ComicInfo>",
    ];
    for text in documents {
        let expected = by_the_deserializer(text);
        assert!(expected.is_some(), "{}", text);
        assert_eq!(by_the_library(text), expected, "{}", text);
    }
}

#[test]
fn faulty_documents_are_refused_as_the_deserializer_refuses_them() {
    let documents = [
        "",
        "<ComicInfo>",
        "<ComicInfo><Title>T</Title>",
        "<ComicInfo><Title>T</Series></ComicInfo>",
        "<ComicInfo><Title>a</Title><Title>b</Title></ComicInfo>",
        "<ComicInfo><Title>&nope;</Title></ComicInfo>",
    ];
    for text in documents {
        assert_eq!(by_the_deserializer(text), None, "{}", text);
        assert_eq!(by_the_library(text), None, "{}", text);
    }
}

#[test]
fn written_documents_are_read_by_the_deserializer() {
    let mut info = ComicInfo::default();
    info.title = Some("Issue <One> & more".to_string());
    info.count = Some(-5);
    info.web = Some(String::new());
    info.community_rating = Some("4.5".to_string());
    let text = info.to_xml().unwrap();
    assert_eq!(by_the_deserializer(&text), Some(info.to_slots()));
}

#[test]
fn the_library_keeps_the_white_space_that_the_deserializer_trims() {
    let text = "<ComicInfo><Title> a </Title></ComicInfo>";
    assert_eq!(by_the_deserializer(text).unwrap()[0], Some("a".to_string()));
    assert_eq!(by_the_library(text).unwrap()[0], Some(" a ".to_string()));
}

#[test]
fn the_library_checks_the_root_that_the_deserializer_passes_over() {
    let text = "<Other><Title>T</Title></Other>";
    assert!(by_the_deserializer(text).is_some());
    assert!(by_the_library(text).is_none());
}
