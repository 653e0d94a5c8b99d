use cbz_meta::comicinfo::{field_kind, field_tag, AgeRating, ComicInfo, FieldKind, Manga, YesNo, FIELD_COUNT};
use serde::ser::{Serialize, SerializeStruct, Serializer};

/// A label, serialized the way a unit variant with that name is.
struct Label<'a>(&'a str);

impl Serialize for Label<'_> {
    fn serialize<S: Serializer>(&self, serializer: S) -> Result<S::Ok, S::Error> {
        let name: &'static str = match self.0 {
            "Unknown" => "Unknown",
            "No" => "No",
            "Yes" => "Yes",
            "YesAndRightToLeft" => "YesAndRightToLeft",
            "Adults Only 18+" => "Adults Only 18+",
            "Early Childhood" => "Early Childhood",
            "Everyone" => "Everyone",
            "Everyone 10+" => "Everyone 10+",
            "G" => "G",
            "Kids to Adults" => "Kids to Adults",
            "M" => "M",
            "MA15+" => "MA15+",
            "Mature 17+" => "Mature 17+",
            "PG" => "PG",
            "R18+" => "R18+",
            "Rating Pending" => "Rating Pending",
            "Teen" => "Teen",
            "X18+" => "X18+",
            other => panic!("{}", other),
        };
        serializer.serialize_unit_variant("Label", 0, name)
    }
}

/// The document, serialized field by field as a struct called `ComicInfo`
/// whose absent fields are skipped.
struct Record<'a>(&'a ComicInfo);

impl Serialize for Record<'_> {
    fn serialize<S: Serializer>(&self, serializer: S) -> Result<S::Ok, S::Error> {
        let slots = self.0.to_slots();
        let present = slots.iter().filter(|s| s.is_some()).count();
        let mut record = serializer.serialize_struct("ComicInfo", present)?;
        for k in 0..FIELD_COUNT {
            let Some(text) = &slots[k] else {
                continue;
            };
            let tag = field_tag(k);
            match field_kind(k) {
                FieldKind::Text => record.serialize_field(tag, text)?,
                FieldKind::Whole => record.serialize_field(tag, &text.parse::<i32>().unwrap())?,
                FieldKind::Real => record.serialize_field(tag, &text.parse::<f64>().unwrap())?,
                _ => record.serialize_field(tag, &Label(text))?,
            }
        }
        record.end()
    }
}

fn by_the_serializer(info: &ComicInfo) -> String {
    let body = quick_xml::se::to_string(&Record(info)).unwrap();
    format!("<?xml version=\"1.0\" encoding=\"utf-8\"?>\n{}", body)
}

#[test]
fn empty_document_is_written_as_the_serializer_writes_it() {
    let info = ComicInfo::default();
    assert_eq!(info.to_xml().unwrap(), by_the_serializer(&info));
}

#[test]
fn texts_are_written_as_the_serializer_writes_them() {
    for text in ["Issue One", "", " ", "a<b>c&d", "quote \" and '", "\u{e9}t\u{e9}", " pad ", "a\nb"] {
        let mut info = ComicInfo::default();
        info.title = Some(text.to_string());
        info.gtin = Some(text.to_string());
        assert_eq!(info.to_xml().unwrap(), by_the_serializer(&info), "{:?}", text);
    }
}

#[test]
fn numbers_are_written_as_the_serializer_writes_them() {
    for n in [0, 1, -1, 12, 2024, i32::MAX, i32::MIN] {
        let mut info = ComicInfo::default();
        info.count = Some(n);
        info.page_count = Some(n);
        assert_eq!(info.to_xml().unwrap(), by_the_serializer(&info), "{}", n);
    }
    for rating in ["4.5", "0", "5", "-1.25", "100"] {
        let mut info = ComicInfo::default();
        info.community_rating = Some(rating.to_string());
        assert_eq!(info.to_xml().unwrap(), by_the_serializer(&info), "{}", rating);
    }
}

#[test]
fn labels_are_written_as_the_serializer_writes_them() {
    let ratings = [
        AgeRating::Unknown,
        AgeRating::AdultsOnly18,
        AgeRating::EarlyChildhood,
        AgeRating::Everyone,
        AgeRating::Everyone10,
        AgeRating::G,
        AgeRating::KidsToAdults,
        AgeRating::M,
        AgeRating::MA15,
        AgeRating::Mature17,
        AgeRating::PG,
        AgeRating::R18,
        AgeRating::RatingPending,
        AgeRating::Teen,
        AgeRating::X18,
    ];
    for rating in ratings {
        let mut info = ComicInfo::default();
        info.age_rating = Some(rating);
        info.manga = Some(Manga::YesAndRightToLeft);
        info.black_and_white = Some(YesNo::Unknown);
        assert_eq!(info.to_xml().unwrap(), by_the_serializer(&info), "{:?}", rating);
    }
}

#[test]
fn a_full_document_is_written_as_the_serializer_writes_it() {
    let mut info = ComicInfo::default();
    info.title = Some("T".to_string());
    info.series = Some("S & T".to_string());
    info.number = Some("1".to_string());
    info.count = Some(3);
    info.summary = Some("<b>bold</b>".to_string());
    info.year = Some(1999);
    info.web = Some(String::new());
    info.page_count = Some(24);
    info.black_and_white = Some(YesNo::Yes);
    info.manga = Some(Manga::No);
    info.age_rating = Some(AgeRating::KidsToAdults);
    info.community_rating = Some("3.5".to_string());
    info.gtin = Some("0".to_string());
    assert_eq!(info.to_xml().unwrap(), by_the_serializer(&info));
}
