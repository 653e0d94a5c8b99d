use cbz_meta::codec::find_field;
use cbz_meta::comicinfo::{
    field_kind, field_tag, AgeRating, ComicInfo, FieldKind, Manga, YesNo, FIELD_COUNT,
};
use cbz_meta::error::{EncodeError, ParseError};
use cbz_meta::xml::{tokenize, Token};

const DECLARATION: &str = "<?xml version=\"1.0\" encoding=\"utf-8\"?>\n";

fn full_document() -> ComicInfo {
    ComicInfo {
        title: Some("Issue One".to_string()),
        series: Some("A Series".to_string()),
        number: Some("1".to_string()),
        count: Some(12),
        volume: Some(2),
        alternate_series: Some("Other".to_string()),
        alternate_number: Some("1a".to_string()),
        alternate_count: Some(-3),
        summary: Some("Tom & Jerry <fight> \"again\" it's".to_string()),
        notes: Some("  padded  ".to_string()),
        year: Some(2021),
        month: Some(7),
        day: Some(31),
        writer: Some("W".to_string()),
        penciller: Some("P".to_string()),
        inker: Some("I".to_string()),
        colorist: Some("C".to_string()),
        letterer: Some("L".to_string()),
        cover_artist: Some("CA".to_string()),
        editor: Some("E".to_string()),
        translator: Some("T".to_string()),
        publisher: Some("Pub".to_string()),
        imprint: Some("Imp".to_string()),
        genre: Some("Action, Drama".to_string()),
        tags: Some("a,b".to_string()),
        web: Some("https://example.org/?a=1&b=2".to_string()),
        page_count: Some(24),
        language_iso: Some("en".to_string()),
        format: Some("TBP".to_string()),
        black_and_white: Some(YesNo::No),
        manga: Some(Manga::YesAndRightToLeft),
        characters: Some("X, Y".to_string()),
        teams: Some("Team".to_string()),
        locations: Some("Here".to_string()),
        scan_information: Some("scan".to_string()),
        story_arc: Some("Arc".to_string()),
        story_arc_number: Some("3".to_string()),
        series_group: Some("Group".to_string()),
        age_rating: Some(AgeRating::AdultsOnly18),
        community_rating: Some("4.5".to_string()),
        main_character_or_team: Some("Hero".to_string()),
        review: Some("Fine\nread".to_string()),
        gtin: Some("9780000000000".to_string()),
    }
}

#[test]
fn default_document_is_empty() {
    let d = ComicInfo::default();
    assert_eq!(d.title, None);
    assert_eq!(d.page_count, None);
    assert_eq!(d.age_rating, None);
    assert_eq!(d.community_rating, None);
    assert!(d.to_slots().iter().all(|s| s.is_none()));
    assert_eq!(YesNo::default(), YesNo::Unknown);
    assert_eq!(Manga::default(), Manga::Unknown);
    assert_eq!(AgeRating::default(), AgeRating::Unknown);
}

#[test]
fn empty_document_is_a_self_closing_root() {
    let text = ComicInfo::default().to_xml().unwrap();
    assert_eq!(text, format!("{}<ComicInfo/>", DECLARATION));
}

#[test]
fn encode_gives_the_exact_text() {
    let mut d = ComicInfo::default();
    d.title = Some("Issue One".to_string());
    d.page_count = Some(2);
    let text = d.to_xml().unwrap();
    assert_eq!(
        text,
        format!(
            "{}<ComicInfo><Title>Issue One</Title><PageCount>2</PageCount></ComicInfo>",
            DECLARATION
        )
    );
}

#[test]
fn encode_escapes_markup_and_keeps_quotes() {
    let mut d = ComicInfo::default();
    d.summary = Some("a<b>c&d\"e'f".to_string());
    let text = d.to_xml().unwrap();
    assert_eq!(
        text,
        format!("{}<ComicInfo><Summary>a&lt;b&gt;c&amp;d\"e'f</Summary></ComicInfo>", DECLARATION)
    );
}

#[test]
fn encode_writes_labels_not_variant_names() {
    let mut d = ComicInfo::default();
    d.age_rating = Some(AgeRating::Mature17);
    d.manga = Some(Manga::YesAndRightToLeft);
    d.black_and_white = Some(YesNo::Yes);
    let text = d.to_xml().unwrap();
    assert!(text.contains("<AgeRating>Mature 17+</AgeRating>"));
    assert!(text.contains("<Manga>YesAndRightToLeft</Manga>"));
    assert!(text.contains("<BlackAndWhite>Yes</BlackAndWhite>"));
}

#[test]
fn encode_writes_an_empty_text_as_an_empty_element() {
    let mut d = ComicInfo::default();
    d.title = Some(String::new());
    let text = d.to_xml().unwrap();
    assert_eq!(text, format!("{}<ComicInfo><Title/></ComicInfo>", DECLARATION));
    assert_eq!(ComicInfo::from_xml(&text).unwrap(), d);
}

#[test]
fn encode_omits_absent_fields() {
    let mut d = ComicInfo::default();
    d.series = Some("S".to_string());
    let text = d.to_xml().unwrap();
    for k in 0..FIELD_COUNT {
        let tag = field_tag(k);
        let present = tag == "Series";
        assert_eq!(text.contains(&format!("<{}>", tag)), present, "{}", tag);
        assert!(!text.contains(&format!("<{}/>", tag)), "{}", tag);
    }
}

#[test]
fn full_document_round_trips() {
    let d = full_document();
    let text = d.to_xml().unwrap();
    assert_eq!(ComicInfo::from_xml(&text), Ok(d));
}

#[test]
fn empty_document_round_trips() {
    let d = ComicInfo::default();
    let text = d.to_xml().unwrap();
    assert_eq!(ComicInfo::from_xml(&text), Ok(d));
}

#[test]
fn text_round_trips_with_its_white_space() {
    let mut d = ComicInfo::default();
    d.notes = Some(" \t two  words \n".to_string());
    d.title = Some("\u{e9}t\u{e9} \u{1f600}".to_string());
    let text = d.to_xml().unwrap();
    assert_eq!(ComicInfo::from_xml(&text), Ok(d));
}

#[test]
fn extreme_numbers_round_trip() {
    let mut d = ComicInfo::default();
    d.count = Some(i32::MIN);
    d.volume = Some(i32::MAX);
    d.year = Some(0);
    d.month = Some(-1);
    let text = d.to_xml().unwrap();
    assert!(text.contains("<Count>-2147483648</Count>"));
    assert!(text.contains("<Volume>2147483647</Volume>"));
    assert_eq!(ComicInfo::from_xml(&text), Ok(d));
}

#[test]
fn every_label_round_trips() {
    for v in [YesNo::Unknown, YesNo::No, YesNo::Yes] {
        assert_eq!(YesNo::from_label(v.label()), Some(v));
    }
    for v in [Manga::Unknown, Manga::No, Manga::Yes, Manga::YesAndRightToLeft] {
        assert_eq!(Manga::from_label(v.label()), Some(v));
    }
    let ratings = [
        (AgeRating::Unknown, "Unknown"),
        (AgeRating::AdultsOnly18, "Adults Only 18+"),
        (AgeRating::EarlyChildhood, "Early Childhood"),
        (AgeRating::Everyone, "Everyone"),
        (AgeRating::Everyone10, "Everyone 10+"),
        (AgeRating::G, "G"),
        (AgeRating::KidsToAdults, "Kids to Adults"),
        (AgeRating::M, "M"),
        (AgeRating::MA15, "MA15+"),
        (AgeRating::Mature17, "Mature 17+"),
        (AgeRating::PG, "PG"),
        (AgeRating::R18, "R18+"),
        (AgeRating::RatingPending, "Rating Pending"),
        (AgeRating::Teen, "Teen"),
        (AgeRating::X18, "X18+"),
    ];
    for (v, label) in ratings {
        assert_eq!(v.label(), label);
        assert_eq!(AgeRating::from_label(label), Some(v));
    }
}

#[test]
fn labels_are_read_exactly() {
    assert_eq!(YesNo::from_label("yes"), None);
    assert_eq!(YesNo::from_label(" Yes"), None);
    assert_eq!(YesNo::from_label(""), None);
    assert_eq!(Manga::from_label("YesAndRightToLeft "), None);
    assert_eq!(AgeRating::from_label("AdultsOnly18"), None);
    assert_eq!(AgeRating::from_label("Mature17"), None);
}

#[test]
fn decode_refuses_an_unknown_label() {
    let text = "<ComicInfo><Manga>Sideways</Manga></ComicInfo>";
    assert_eq!(ComicInfo::from_xml(text), Err(ParseError::UnknownLabel { field: 30 }));
    let text = "<ComicInfo><BlackAndWhite>Maybe</BlackAndWhite></ComicInfo>";
    assert_eq!(ComicInfo::from_xml(text), Err(ParseError::UnknownLabel { field: 29 }));
    let text = "<ComicInfo><AgeRating>AdultsOnly18</AgeRating></ComicInfo>";
    assert_eq!(ComicInfo::from_xml(text), Err(ParseError::UnknownLabel { field: 38 }));
    assert_eq!(field_tag(38), "AgeRating");
}

#[test]
fn decode_refuses_a_foreign_root() {
    let text = "<Comic><Title>T</Title></Comic>";
    assert_eq!(ComicInfo::from_xml(text), Err(ParseError::UnexpectedRoot));
    let text = "<?xml version=\"1.0\"?>\n<comicinfo/>";
    assert_eq!(ComicInfo::from_xml(text), Err(ParseError::UnexpectedRoot));
}

#[test]
fn decode_refuses_a_malformed_text() {
    assert_eq!(ComicInfo::from_xml(""), Err(ParseError::Malformed));
    assert_eq!(ComicInfo::from_xml("no markup at all"), Err(ParseError::Malformed));
    assert_eq!(ComicInfo::from_xml("<ComicInfo><Title>T</Title>"), Err(ParseError::Malformed));
    assert_eq!(
        ComicInfo::from_xml("<ComicInfo><Title>T</Series></ComicInfo>"),
        Err(ParseError::Malformed)
    );
    assert_eq!(
        ComicInfo::from_xml("<ComicInfo><Title>a &bogus; b</Title></ComicInfo>"),
        Err(ParseError::Malformed)
    );
}

#[test]
fn decode_refuses_a_malformed_number() {
    let text = "<ComicInfo><Count>twelve</Count></ComicInfo>";
    assert_eq!(ComicInfo::from_xml(text), Err(ParseError::InvalidNumber { field: 3 }));
    let text = "<ComicInfo><PageCount>2147483648</PageCount></ComicInfo>";
    assert_eq!(ComicInfo::from_xml(text), Err(ParseError::InvalidNumber { field: 26 }));
    let text = "<ComicInfo><Year/></ComicInfo>";
    assert_eq!(ComicInfo::from_xml(text), Err(ParseError::InvalidNumber { field: 10 }));
    let text = "<ComicInfo><CommunityRating>good</CommunityRating></ComicInfo>";
    assert_eq!(ComicInfo::from_xml(text), Err(ParseError::InvalidNumber { field: 39 }));
}

#[test]
fn decode_refuses_a_field_that_occurs_twice() {
    let text = "<ComicInfo><Title>a</Title><Series>s</Series><Title>b</Title></ComicInfo>";
    assert_eq!(ComicInfo::from_xml(text), Err(ParseError::DuplicateField { field: 0 }));
}

#[test]
fn decode_reports_the_first_fault_in_schema_order() {
    let text = "<ComicInfo><Manga>x</Manga><Count>y</Count></ComicInfo>";
    assert_eq!(ComicInfo::from_xml(text), Err(ParseError::InvalidNumber { field: 3 }));
}

#[test]
fn decode_reads_a_document_as_other_tools_write_it() {
    let text = "\u{feff}<?xml version=\"1.0\" encoding=\"utf-8\"?>\n\
<!-- made elsewhere -->\n\
<ComicInfo xmlns:xsi=\"http://www.w3.org/2001/XMLSchema-instance\" xmlns:xsd=\"http://www.w3.org/2001/XMLSchema\">\n\
  <Title>Tom &amp; Jerry &#65;</Title>\n\
  <Number>7</Number>\n\
  <Count>+12</Count>\n\
  <Summary><![CDATA[1 < 2]]></Summary>\n\
  <Unheard>of</Unheard>\n\
  <Pages>\n    <Page Image=\"0\" Type=\"FrontCover\" />\n    <Page Image=\"1\">inner</Page>\n  </Pages>\n\
  <AgeRating>Everyone 10+</AgeRating>\n\
  <CommunityRating>3.75</CommunityRating>\n\
  <Web />\n\
</ComicInfo>\n";
    let d = ComicInfo::from_xml(text).unwrap();
    let mut expected = ComicInfo::default();
    expected.title = Some("Tom & Jerry A".to_string());
    expected.number = Some("7".to_string());
    expected.count = Some(12);
    expected.summary = Some("1 < 2".to_string());
    expected.age_rating = Some(AgeRating::Everyone10);
    expected.community_rating = Some("3.75".to_string());
    expected.web = Some(String::new());
    assert_eq!(d, expected);
}

#[test]
fn decode_keeps_only_the_text_directly_inside_a_field() {
    let text = "<ComicInfo><Title>a<b>inner</b>c</Title></ComicInfo>";
    let d = ComicInfo::from_xml(text).unwrap();
    assert_eq!(d.title, Some("ac".to_string()));
}

#[test]
fn decode_does_not_trim() {
    let text = "<ComicInfo><Title> a </Title></ComicInfo>";
    assert_eq!(ComicInfo::from_xml(text).unwrap().title, Some(" a ".to_string()));
    let text = "<ComicInfo><Count> 5 </Count></ComicInfo>";
    assert_eq!(ComicInfo::from_xml(text), Err(ParseError::InvalidNumber { field: 3 }));
    let text = "<ComicInfo><Manga> Yes </Manga></ComicInfo>";
    assert_eq!(ComicInfo::from_xml(text), Err(ParseError::UnknownLabel { field: 30 }));
}

#[test]
fn encode_refuses_a_rating_that_is_no_number() {
    let mut d = ComicInfo::default();
    d.community_rating = Some("five".to_string());
    assert_eq!(d.to_xml(), Err(EncodeError::InvalidRating));
    d.community_rating = Some("5".to_string());
    assert!(d.to_xml().is_ok());
}

#[test]
fn tokens_of_a_written_document() {
    let mut d = ComicInfo::default();
    d.title = Some("a<b".to_string());
    d.web = Some(String::new());
    let text = d.to_xml().unwrap();
    let tokens = tokenize(&text).unwrap();
    let expected = vec![
        Token::Other,
        Token::Text("\n".to_string()),
        Token::Open("ComicInfo".to_string()),
        Token::Open("Title".to_string()),
        Token::Text("a<b".to_string()),
        Token::Close("Title".to_string()),
        Token::Leaf("Web".to_string()),
        Token::Close("ComicInfo".to_string()),
    ];
    assert_eq!(tokens, expected);
    assert_eq!(ComicInfo::from_tokens(&tokens), Ok(d));
}

#[test]
fn tokens_without_a_closed_root_are_no_document() {
    let tokens = vec![Token::Open("ComicInfo".to_string()), Token::Open("Title".to_string())];
    assert_eq!(ComicInfo::from_tokens(&tokens), Err(ParseError::Malformed));
    let tokens = vec![Token::Close("ComicInfo".to_string())];
    assert_eq!(ComicInfo::from_tokens(&tokens), Err(ParseError::Malformed));
    let tokens: Vec<Token> = Vec::new();
    assert_eq!(ComicInfo::from_tokens(&tokens), Err(ParseError::Malformed));
}

#[test]
fn tokenize_refuses_what_is_not_well_formed() {
    assert!(tokenize("<a><b></a>").is_none());
    assert!(tokenize("<a>&nope;</a>").is_none());
    assert!(tokenize("<a>fine</a>").is_some());
}

#[test]
fn the_field_table_is_consistent() {
    assert_eq!(FIELD_COUNT, 43);
    for k in 0..FIELD_COUNT {
        assert_eq!(find_field(field_tag(k)), Some(k));
    }
    assert_eq!(find_field("ComicInfo"), None);
    assert_eq!(find_field("title"), None);
    assert_eq!(field_tag(0), "Title");
    assert_eq!(field_tag(42), "GTIN");
    assert_eq!(field_kind(3), FieldKind::Whole);
    assert_eq!(field_kind(29), FieldKind::YesNo);
    assert_eq!(field_kind(30), FieldKind::Manga);
    assert_eq!(field_kind(38), FieldKind::AgeRating);
    assert_eq!(field_kind(39), FieldKind::Real);
    assert_eq!(field_kind(0), FieldKind::Text);
}

#[test]
fn slots_follow_the_schema() {
    let d = full_document();
    let slots = d.to_slots();
    assert_eq!(slots.len(), FIELD_COUNT);
    assert_eq!(slots[0], Some("Issue One".to_string()));
    assert_eq!(slots[7], Some("-3".to_string()));
    assert_eq!(slots[30], Some("YesAndRightToLeft".to_string()));
    assert_eq!(slots[38], Some("Adults Only 18+".to_string()));
    assert_eq!(slots[39], Some("4.5".to_string()));
    assert_eq!(slots[42], Some("9780000000000".to_string()));
}

#[test]
fn text_round_trips_with_odd_characters() {
    let odd = [
        "\r", "\r\n", "\t", "\u{0}", "\u{1}", "\u{b}", "\u{7f}", "\u{85}", "\u{2028}", "\u{feff}",
        "\u{fffe}", "\u{ffff}", "]]>", "--", "<!--", "&amp;", "&#13;", "&lt;", " ", "  ", "\n",
        "a\rb", "<![CDATA[x]]>", "<?pi?>", "\u{10ffff}", "'\"", "\u{d7ff}", "\u{e000}",
    ];
    let mut failed = Vec::new();
    for s in odd {
        let mut d = ComicInfo::default();
        d.title = Some(s.to_string());
        match d.to_xml() {
            Ok(text) => assert_eq!(ComicInfo::from_xml(&text), Ok(d)),
            Err(e) => failed.push((s, e)),
        }
    }
    assert!(failed.is_empty(), "{:?}", failed);
}
