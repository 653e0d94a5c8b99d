//! The ComicInfo document: its enumerations with their fixed labels, the
//! record itself, and the table that lays the record's fields out as
//! optional texts in the order of the schema.

use vstd::prelude::*;
use crate::error::ParseError;
use crate::decimal::{
    decimal, format_i32, is_real_literal, is_real_text, lemma_decimal_round_trip, parse_i32,
    read_i32,
};
use crate::text::same_text;

verus! {

/// A flag that may be unknown.
#[derive(Debug, Clone, Copy, PartialEq, Eq, Structural)]
pub enum YesNo {
    /// Written as `Unknown`.
    Unknown,
    /// Written as `No`.
    No,
    /// Written as `Yes`.
    Yes,
}

impl Default for YesNo {
    fn default() -> (r: Self)
        ensures
            r == YesNo::Unknown,
    {
        YesNo::Unknown
    }
}

impl YesNo {
    /// The label under which the value is written.
    pub open spec fn text(self) -> Seq<char> {
        match self {
            YesNo::Unknown => "Unknown"@,
            YesNo::No => "No"@,
            YesNo::Yes => "Yes"@,
        }
    }

    /// The value that a label stands for; any other text stands for none.
    pub open spec fn of_text(text: Seq<char>) -> Option<Self> {
        if text == "Unknown"@ {
            Some(YesNo::Unknown)
        } else if text == "No"@ {
            Some(YesNo::No)
        } else if text == "Yes"@ {
            Some(YesNo::Yes)
        } else {
            None
        }
    }

    /// The label under which the value is written.
    pub fn label(&self) -> (r: &'static str)
        ensures
            r@ == self.text(),
    {
        match self {
            YesNo::Unknown => "Unknown",
            YesNo::No => "No",
            YesNo::Yes => "Yes",
        }
    }

    /// Reads a label. The text has to be one of the labels exactly.
    pub fn from_label(text: &str) -> (r: Option<Self>)
        ensures
            r == Self::of_text(text@),
    {
        if same_text(text, "Unknown") {
            Some(YesNo::Unknown)
        } else if same_text(text, "No") {
            Some(YesNo::No)
        } else if same_text(text, "Yes") {
            Some(YesNo::Yes)
        } else {
            None
        }
    }

    /// Each value is read back from its own label.
    pub proof fn lemma_label_round_trip(self)
        ensures
            Self::of_text(self.text()) == Some(self),
    {
        reveal_strlit("Unknown");
        reveal_strlit("No");
        reveal_strlit("Yes");
        assert("Unknown"@.len() == 7);
        assert("No"@.len() == 2);
        assert("Yes"@.len() == 3);
    }

    /// A text that is read as a value is that value's label.
    pub proof fn lemma_label_exact(text: Seq<char>)
        ensures
            Self::of_text(text) matches Some(value) ==> value.text() == text,
    {
    }
}

/// Whether a book is a manga, and whether it reads from right to left.
#[derive(Debug, Clone, Copy, PartialEq, Eq, Structural)]
pub enum Manga {
    /// Written as `Unknown`.
    Unknown,
    /// Written as `No`.
    No,
    /// Written as `Yes`.
    Yes,
    /// Written as `YesAndRightToLeft`.
    YesAndRightToLeft,
}

impl Default for Manga {
    fn default() -> (r: Self)
        ensures
            r == Manga::Unknown,
    {
        Manga::Unknown
    }
}

impl Manga {
    /// The label under which the value is written.
    pub open spec fn text(self) -> Seq<char> {
        match self {
            Manga::Unknown => "Unknown"@,
            Manga::No => "No"@,
            Manga::Yes => "Yes"@,
            Manga::YesAndRightToLeft => "YesAndRightToLeft"@,
        }
    }

    /// The value that a label stands for; any other text stands for none.
    pub open spec fn of_text(text: Seq<char>) -> Option<Self> {
        if text == "Unknown"@ {
            Some(Manga::Unknown)
        } else if text == "No"@ {
            Some(Manga::No)
        } else if text == "Yes"@ {
            Some(Manga::Yes)
        } else if text == "YesAndRightToLeft"@ {
            Some(Manga::YesAndRightToLeft)
        } else {
            None
        }
    }

    /// The label under which the value is written.
    pub fn label(&self) -> (r: &'static str)
        ensures
            r@ == self.text(),
    {
        match self {
            Manga::Unknown => "Unknown",
            Manga::No => "No",
            Manga::Yes => "Yes",
            Manga::YesAndRightToLeft => "YesAndRightToLeft",
        }
    }

    /// Reads a label. The text has to be one of the labels exactly.
    pub fn from_label(text: &str) -> (r: Option<Self>)
        ensures
            r == Self::of_text(text@),
    {
        if same_text(text, "Unknown") {
            Some(Manga::Unknown)
        } else if same_text(text, "No") {
            Some(Manga::No)
        } else if same_text(text, "Yes") {
            Some(Manga::Yes)
        } else if same_text(text, "YesAndRightToLeft") {
            Some(Manga::YesAndRightToLeft)
        } else {
            None
        }
    }

    /// Each value is read back from its own label.
    pub proof fn lemma_label_round_trip(self)
        ensures
            Self::of_text(self.text()) == Some(self),
    {
        reveal_strlit("Unknown");
        reveal_strlit("No");
        reveal_strlit("Yes");
        reveal_strlit("YesAndRightToLeft");
        assert("Unknown"@.len() == 7);
        assert("No"@.len() == 2);
        assert("Yes"@.len() == 3);
        assert("YesAndRightToLeft"@.len() == 17);
    }

    /// A text that is read as a value is that value's label.
    pub proof fn lemma_label_exact(text: Seq<char>)
        ensures
            Self::of_text(text) matches Some(value) ==> value.text() == text,
    {
    }
}

/// The age rating of a book. Several labels differ from the names of their variants.
#[derive(Debug, Clone, Copy, PartialEq, Eq, Structural)]
pub enum AgeRating {
    /// Written as `Unknown`.
    Unknown,
    /// Written as `Adults Only 18+`.
    AdultsOnly18,
    /// Written as `Early Childhood`.
    EarlyChildhood,
    /// Written as `Everyone`.
    Everyone,
    /// Written as `Everyone 10+`.
    Everyone10,
    /// Written as `G`.
    G,
    /// Written as `Kids to Adults`.
    KidsToAdults,
    /// Written as `M`.
    M,
    /// Written as `MA15+`.
    MA15,
    /// Written as `Mature 17+`.
    Mature17,
    /// Written as `PG`.
    PG,
    /// Written as `R18+`.
    R18,
    /// Written as `Rating Pending`.
    RatingPending,
    /// Written as `Teen`.
    Teen,
    /// Written as `X18+`.
    X18,
}

impl Default for AgeRating {
    fn default() -> (r: Self)
        ensures
            r == AgeRating::Unknown,
    {
        AgeRating::Unknown
    }
}

impl AgeRating {
    /// The label under which the value is written.
    pub open spec fn text(self) -> Seq<char> {
        match self {
            AgeRating::Unknown => "Unknown"@,
            AgeRating::AdultsOnly18 => "Adults Only 18+"@,
            AgeRating::EarlyChildhood => "Early Childhood"@,
            AgeRating::Everyone => "Everyone"@,
            AgeRating::Everyone10 => "Everyone 10+"@,
            AgeRating::G => "G"@,
            AgeRating::KidsToAdults => "Kids to Adults"@,
            AgeRating::M => "M"@,
            AgeRating::MA15 => "MA15+"@,
            AgeRating::Mature17 => "Mature 17+"@,
            AgeRating::PG => "PG"@,
            AgeRating::R18 => "R18+"@,
            AgeRating::RatingPending => "Rating Pending"@,
            AgeRating::Teen => "Teen"@,
            AgeRating::X18 => "X18+"@,
        }
    }

    /// The value that a label stands for; any other text stands for none.
    pub open spec fn of_text(text: Seq<char>) -> Option<Self> {
        if text == "Unknown"@ {
            Some(AgeRating::Unknown)
        } else if text == "Adults Only 18+"@ {
            Some(AgeRating::AdultsOnly18)
        } else if text == "Early Childhood"@ {
            Some(AgeRating::EarlyChildhood)
        } else if text == "Everyone"@ {
            Some(AgeRating::Everyone)
        } else if text == "Everyone 10+"@ {
            Some(AgeRating::Everyone10)
        } else if text == "G"@ {
            Some(AgeRating::G)
        } else if text == "Kids to Adults"@ {
            Some(AgeRating::KidsToAdults)
        } else if text == "M"@ {
            Some(AgeRating::M)
        } else if text == "MA15+"@ {
            Some(AgeRating::MA15)
        } else if text == "Mature 17+"@ {
            Some(AgeRating::Mature17)
        } else if text == "PG"@ {
            Some(AgeRating::PG)
        } else if text == "R18+"@ {
            Some(AgeRating::R18)
        } else if text == "Rating Pending"@ {
            Some(AgeRating::RatingPending)
        } else if text == "Teen"@ {
            Some(AgeRating::Teen)
        } else if text == "X18+"@ {
            Some(AgeRating::X18)
        } else {
            None
        }
    }

    /// The label under which the value is written.
    pub fn label(&self) -> (r: &'static str)
        ensures
            r@ == self.text(),
    {
        match self {
            AgeRating::Unknown => "Unknown",
            AgeRating::AdultsOnly18 => "Adults Only 18+",
            AgeRating::EarlyChildhood => "Early Childhood",
            AgeRating::Everyone => "Everyone",
            AgeRating::Everyone10 => "Everyone 10+",
            AgeRating::G => "G",
            AgeRating::KidsToAdults => "Kids to Adults",
            AgeRating::M => "M",
            AgeRating::MA15 => "MA15+",
            AgeRating::Mature17 => "Mature 17+",
            AgeRating::PG => "PG",
            AgeRating::R18 => "R18+",
            AgeRating::RatingPending => "Rating Pending",
            AgeRating::Teen => "Teen",
            AgeRating::X18 => "X18+",
        }
    }

    /// Reads a label. The text has to be one of the labels exactly.
    pub fn from_label(text: &str) -> (r: Option<Self>)
        ensures
            r == Self::of_text(text@),
    {
        if same_text(text, "Unknown") {
            Some(AgeRating::Unknown)
        } else if same_text(text, "Adults Only 18+") {
            Some(AgeRating::AdultsOnly18)
        } else if same_text(text, "Early Childhood") {
            Some(AgeRating::EarlyChildhood)
        } else if same_text(text, "Everyone") {
            Some(AgeRating::Everyone)
        } else if same_text(text, "Everyone 10+") {
            Some(AgeRating::Everyone10)
        } else if same_text(text, "G") {
            Some(AgeRating::G)
        } else if same_text(text, "Kids to Adults") {
            Some(AgeRating::KidsToAdults)
        } else if same_text(text, "M") {
            Some(AgeRating::M)
        } else if same_text(text, "MA15+") {
            Some(AgeRating::MA15)
        } else if same_text(text, "Mature 17+") {
            Some(AgeRating::Mature17)
        } else if same_text(text, "PG") {
            Some(AgeRating::PG)
        } else if same_text(text, "R18+") {
            Some(AgeRating::R18)
        } else if same_text(text, "Rating Pending") {
            Some(AgeRating::RatingPending)
        } else if same_text(text, "Teen") {
            Some(AgeRating::Teen)
        } else if same_text(text, "X18+") {
            Some(AgeRating::X18)
        } else {
            None
        }
    }

    /// Each value is read back from its own label.
    pub proof fn lemma_label_round_trip(self)
        ensures
            Self::of_text(self.text()) == Some(self),
    {
        reveal_strlit("Unknown");
        reveal_strlit("Adults Only 18+");
        reveal_strlit("Early Childhood");
        reveal_strlit("Everyone");
        reveal_strlit("Everyone 10+");
        reveal_strlit("G");
        reveal_strlit("Kids to Adults");
        reveal_strlit("M");
        reveal_strlit("MA15+");
        reveal_strlit("Mature 17+");
        reveal_strlit("PG");
        reveal_strlit("R18+");
        reveal_strlit("Rating Pending");
        reveal_strlit("Teen");
        reveal_strlit("X18+");
        assert("Unknown"@.len() == 7);
        assert("Adults Only 18+"@.len() == 15);
        assert("Early Childhood"@.len() == 15);
        assert("Everyone"@.len() == 8);
        assert("Everyone 10+"@.len() == 12);
        assert("G"@.len() == 1);
        assert("Kids to Adults"@.len() == 14);
        assert("M"@.len() == 1);
        assert("MA15+"@.len() == 5);
        assert("Mature 17+"@.len() == 10);
        assert("PG"@.len() == 2);
        assert("R18+"@.len() == 4);
        assert("Rating Pending"@.len() == 14);
        assert("Teen"@.len() == 4);
        assert("X18+"@.len() == 4);
        assert("Adults Only 18+"@[0] == 'A');
        assert("Early Childhood"@[0] == 'E');
        assert("G"@[0] == 'G');
        assert("M"@[0] == 'M');
        assert("Kids to Adults"@[0] == 'K');
        assert("Rating Pending"@[0] == 'R');
        assert("R18+"@[0] == 'R');
        assert("Teen"@[0] == 'T');
        assert("X18+"@[0] == 'X');
    }

    /// A text that is read as a value is that value's label.
    pub proof fn lemma_label_exact(text: Seq<char>)
        ensures
            Self::of_text(text) matches Some(value) ==> value.text() == text,
    {
    }
}

/// What kind of value a field holds, and so how its text is read.
#[derive(Debug, Clone, Copy, PartialEq, Eq, Structural)]
pub enum FieldKind {
    /// Free text.
    Text,
    /// A whole number of 32 bits.
    Whole,
    /// A real number.
    Real,
    /// A `YesNo` label.
    YesNo,
    /// A `Manga` label.
    Manga,
    /// An `AgeRating` label.
    AgeRating,
}

/// The number of fields in the schema.
pub const FIELD_COUNT: usize = 43;

/// The metadata of one comic book. Every field is optional, and an absent
/// field means that nothing is known, never a default.
#[derive(Debug, Clone, PartialEq, Eq)]
pub struct ComicInfo {
    /// The title of the issue.
    pub title: Option<String>,
    /// The series the issue belongs to.
    pub series: Option<String>,
    /// The number of the issue within its series.
    pub number: Option<String>,
    /// How many issues the series has.
    pub count: Option<i32>,
    /// The volume of the series.
    pub volume: Option<i32>,
    /// A second series the issue belongs to.
    pub alternate_series: Option<String>,
    /// The number of the issue within the second series.
    pub alternate_number: Option<String>,
    /// How many issues the second series has.
    pub alternate_count: Option<i32>,
    /// A description of the plot.
    pub summary: Option<String>,
    /// Free notes.
    pub notes: Option<String>,
    /// The year of release.
    pub year: Option<i32>,
    /// The month of release.
    pub month: Option<i32>,
    /// The day of release.
    pub day: Option<i32>,
    /// Who wrote the story.
    pub writer: Option<String>,
    /// Who drew the pencils.
    pub penciller: Option<String>,
    /// Who inked the pages.
    pub inker: Option<String>,
    /// Who coloured the pages.
    pub colorist: Option<String>,
    /// Who lettered the pages.
    pub letterer: Option<String>,
    /// Who made the cover.
    pub cover_artist: Option<String>,
    /// Who edited the issue.
    pub editor: Option<String>,
    /// Who translated the issue.
    pub translator: Option<String>,
    /// Who published the issue.
    pub publisher: Option<String>,
    /// The imprint it was published under.
    pub imprint: Option<String>,
    /// The genres, as one text.
    pub genre: Option<String>,
    /// The tags, as one text.
    pub tags: Option<String>,
    /// A link to a page about the issue.
    pub web: Option<String>,
    /// How many pages the issue has.
    pub page_count: Option<i32>,
    /// The language, as an ISO code.
    pub language_iso: Option<String>,
    /// The format of the publication.
    pub format: Option<String>,
    /// Whether the issue is in black and white.
    pub black_and_white: Option<YesNo>,
    /// Whether the issue is a manga, and how it is read.
    pub manga: Option<Manga>,
    /// The characters, as one text.
    pub characters: Option<String>,
    /// The teams, as one text.
    pub teams: Option<String>,
    /// The locations, as one text.
    pub locations: Option<String>,
    /// Notes on the scan.
    pub scan_information: Option<String>,
    /// The story arc the issue belongs to.
    pub story_arc: Option<String>,
    /// The place of the issue within the story arc.
    pub story_arc_number: Option<String>,
    /// The group the series belongs to.
    pub series_group: Option<String>,
    /// The age rating.
    pub age_rating: Option<AgeRating>,
    /// The community rating: the decimal text of a real number.
    pub community_rating: Option<String>,
    /// The main character or team.
    pub main_character_or_team: Option<String>,
    /// A review.
    pub review: Option<String>,
    /// A trade item number, such as an ISBN.
    pub gtin: Option<String>,
}

/// The mathematical form of a `ComicInfo`.
pub struct Document {
    pub title: Option<Seq<char>>,
    pub series: Option<Seq<char>>,
    pub number: Option<Seq<char>>,
    pub count: Option<i32>,
    pub volume: Option<i32>,
    pub alternate_series: Option<Seq<char>>,
    pub alternate_number: Option<Seq<char>>,
    pub alternate_count: Option<i32>,
    pub summary: Option<Seq<char>>,
    pub notes: Option<Seq<char>>,
    pub year: Option<i32>,
    pub month: Option<i32>,
    pub day: Option<i32>,
    pub writer: Option<Seq<char>>,
    pub penciller: Option<Seq<char>>,
    pub inker: Option<Seq<char>>,
    pub colorist: Option<Seq<char>>,
    pub letterer: Option<Seq<char>>,
    pub cover_artist: Option<Seq<char>>,
    pub editor: Option<Seq<char>>,
    pub translator: Option<Seq<char>>,
    pub publisher: Option<Seq<char>>,
    pub imprint: Option<Seq<char>>,
    pub genre: Option<Seq<char>>,
    pub tags: Option<Seq<char>>,
    pub web: Option<Seq<char>>,
    pub page_count: Option<i32>,
    pub language_iso: Option<Seq<char>>,
    pub format: Option<Seq<char>>,
    pub black_and_white: Option<YesNo>,
    pub manga: Option<Manga>,
    pub characters: Option<Seq<char>>,
    pub teams: Option<Seq<char>>,
    pub locations: Option<Seq<char>>,
    pub scan_information: Option<Seq<char>>,
    pub story_arc: Option<Seq<char>>,
    pub story_arc_number: Option<Seq<char>>,
    pub series_group: Option<Seq<char>>,
    pub age_rating: Option<AgeRating>,
    pub community_rating: Option<Seq<char>>,
    pub main_character_or_team: Option<Seq<char>>,
    pub review: Option<Seq<char>>,
    pub gtin: Option<Seq<char>>,
}

/// The view of an optional string.
pub open spec fn text_view(text: Option<String>) -> Option<Seq<char>> {
    match text {
        Some(s) => Some(s@),
        None => None,
    }
}

/// The views of a list of optional strings.
pub open spec fn slot_views(slots: Seq<Option<String>>) -> Seq<Option<Seq<char>>> {
    slots.map_values(|s: Option<String>| text_view(s))
}

impl View for ComicInfo {
    type V = Document;

    open spec fn view(&self) -> Document {
        Document {
            title: text_view(self.title),
            series: text_view(self.series),
            number: text_view(self.number),
            count: self.count,
            volume: self.volume,
            alternate_series: text_view(self.alternate_series),
            alternate_number: text_view(self.alternate_number),
            alternate_count: self.alternate_count,
            summary: text_view(self.summary),
            notes: text_view(self.notes),
            year: self.year,
            month: self.month,
            day: self.day,
            writer: text_view(self.writer),
            penciller: text_view(self.penciller),
            inker: text_view(self.inker),
            colorist: text_view(self.colorist),
            letterer: text_view(self.letterer),
            cover_artist: text_view(self.cover_artist),
            editor: text_view(self.editor),
            translator: text_view(self.translator),
            publisher: text_view(self.publisher),
            imprint: text_view(self.imprint),
            genre: text_view(self.genre),
            tags: text_view(self.tags),
            web: text_view(self.web),
            page_count: self.page_count,
            language_iso: text_view(self.language_iso),
            format: text_view(self.format),
            black_and_white: self.black_and_white,
            manga: self.manga,
            characters: text_view(self.characters),
            teams: text_view(self.teams),
            locations: text_view(self.locations),
            scan_information: text_view(self.scan_information),
            story_arc: text_view(self.story_arc),
            story_arc_number: text_view(self.story_arc_number),
            series_group: text_view(self.series_group),
            age_rating: self.age_rating,
            community_rating: text_view(self.community_rating),
            main_character_or_team: text_view(self.main_character_or_team),
            review: text_view(self.review),
            gtin: text_view(self.gtin),
        }
    }
}

impl Document {
    /// The document that says nothing.
    pub open spec fn empty() -> Document {
        Document {
            title: None,
            series: None,
            number: None,
            count: None,
            volume: None,
            alternate_series: None,
            alternate_number: None,
            alternate_count: None,
            summary: None,
            notes: None,
            year: None,
            month: None,
            day: None,
            writer: None,
            penciller: None,
            inker: None,
            colorist: None,
            letterer: None,
            cover_artist: None,
            editor: None,
            translator: None,
            publisher: None,
            imprint: None,
            genre: None,
            tags: None,
            web: None,
            page_count: None,
            language_iso: None,
            format: None,
            black_and_white: None,
            manga: None,
            characters: None,
            teams: None,
            locations: None,
            scan_information: None,
            story_arc: None,
            story_arc_number: None,
            series_group: None,
            age_rating: None,
            community_rating: None,
            main_character_or_team: None,
            review: None,
            gtin: None,
        }
    }

    /// A document can be written when its community rating, if it has one,
    /// is the text of a real number.
    pub open spec fn valid(self) -> bool {
        match self.community_rating {
            Some(text) => is_real_literal(text),
            None => true,
        }
    }

    /// Field `k` as an optional text: a number in decimal, an enumerated
    /// value by its label.
    pub open spec fn slot(self, k: int) -> Option<Seq<char>> {
        if k == 0 {
            self.title
        } else if k == 1 {
            self.series
        } else if k == 2 {
            self.number
        } else if k == 3 {
            whole_text(self.count)
        } else if k == 4 {
            whole_text(self.volume)
        } else if k == 5 {
            self.alternate_series
        } else if k == 6 {
            self.alternate_number
        } else if k == 7 {
            whole_text(self.alternate_count)
        } else if k == 8 {
            self.summary
        } else if k == 9 {
            self.notes
        } else if k == 10 {
            whole_text(self.year)
        } else if k == 11 {
            whole_text(self.month)
        } else if k == 12 {
            whole_text(self.day)
        } else if k == 13 {
            self.writer
        } else if k == 14 {
            self.penciller
        } else if k == 15 {
            self.inker
        } else if k == 16 {
            self.colorist
        } else if k == 17 {
            self.letterer
        } else if k == 18 {
            self.cover_artist
        } else if k == 19 {
            self.editor
        } else if k == 20 {
            self.translator
        } else if k == 21 {
            self.publisher
        } else if k == 22 {
            self.imprint
        } else if k == 23 {
            self.genre
        } else if k == 24 {
            self.tags
        } else if k == 25 {
            self.web
        } else if k == 26 {
            whole_text(self.page_count)
        } else if k == 27 {
            self.language_iso
        } else if k == 28 {
            self.format
        } else if k == 29 {
            match self.black_and_white {
                Some(v) => Some(v.text()),
                None => None,
            }
        } else if k == 30 {
            match self.manga {
                Some(v) => Some(v.text()),
                None => None,
            }
        } else if k == 31 {
            self.characters
        } else if k == 32 {
            self.teams
        } else if k == 33 {
            self.locations
        } else if k == 34 {
            self.scan_information
        } else if k == 35 {
            self.story_arc
        } else if k == 36 {
            self.story_arc_number
        } else if k == 37 {
            self.series_group
        } else if k == 38 {
            match self.age_rating {
                Some(v) => Some(v.text()),
                None => None,
            }
        } else if k == 39 {
            self.community_rating
        } else if k == 40 {
            self.main_character_or_team
        } else if k == 41 {
            self.review
        } else {
            self.gtin
        }
    }

    /// The fields as optional texts, in the order of the schema.
    pub open spec fn slots(self) -> Seq<Option<Seq<char>>> {
        Seq::new(FIELD_COUNT as nat, |k: int| self.slot(k))
    }

    /// The document that a full row of well-formed slots stands for.
    pub open spec fn of_slots(slots: Seq<Option<Seq<char>>>) -> Document {
        Document {
            title: slots[0],
            series: slots[1],
            number: slots[2],
            count: whole_at(slots[3]),
            volume: whole_at(slots[4]),
            alternate_series: slots[5],
            alternate_number: slots[6],
            alternate_count: whole_at(slots[7]),
            summary: slots[8],
            notes: slots[9],
            year: whole_at(slots[10]),
            month: whole_at(slots[11]),
            day: whole_at(slots[12]),
            writer: slots[13],
            penciller: slots[14],
            inker: slots[15],
            colorist: slots[16],
            letterer: slots[17],
            cover_artist: slots[18],
            editor: slots[19],
            translator: slots[20],
            publisher: slots[21],
            imprint: slots[22],
            genre: slots[23],
            tags: slots[24],
            web: slots[25],
            page_count: whole_at(slots[26]),
            language_iso: slots[27],
            format: slots[28],
            black_and_white: yes_no_at(slots[29]),
            manga: manga_at(slots[30]),
            characters: slots[31],
            teams: slots[32],
            locations: slots[33],
            scan_information: slots[34],
            story_arc: slots[35],
            story_arc_number: slots[36],
            series_group: slots[37],
            age_rating: age_rating_at(slots[38]),
            community_rating: slots[39],
            main_character_or_team: slots[40],
            review: slots[41],
            gtin: slots[42],
        }
    }
}

/// The decimal text of an optional number.
pub open spec fn whole_text(n: Option<i32>) -> Option<Seq<char>> {
    match n {
        Some(v) => Some(decimal(v as int)),
        None => None,
    }
}

/// The value that an optional text stands for.
pub open spec fn whole_at(slot: Option<Seq<char>>) -> Option<i32> {
    match slot {
        Some(text) => parse_i32(text),
        None => None,
    }
}

/// The value that an optional text stands for.
pub open spec fn yes_no_at(slot: Option<Seq<char>>) -> Option<YesNo> {
    match slot {
        Some(text) => YesNo::of_text(text),
        None => None,
    }
}

/// The value that an optional text stands for.
pub open spec fn manga_at(slot: Option<Seq<char>>) -> Option<Manga> {
    match slot {
        Some(text) => Manga::of_text(text),
        None => None,
    }
}

/// The value that an optional text stands for.
pub open spec fn age_rating_at(slot: Option<Seq<char>>) -> Option<AgeRating> {
    match slot {
        Some(text) => AgeRating::of_text(text),
        None => None,
    }
}

/// The tag of field `k`.
pub open spec fn tag(k: int) -> Seq<char> {
    if k == 0 {
        "Title"@
    } else if k == 1 {
        "Series"@
    } else if k == 2 {
        "Number"@
    } else if k == 3 {
        "Count"@
    } else if k == 4 {
        "Volume"@
    } else if k == 5 {
        "AlternateSeries"@
    } else if k == 6 {
        "AlternateNumber"@
    } else if k == 7 {
        "AlternateCount"@
    } else if k == 8 {
        "Summary"@
    } else if k == 9 {
        "Notes"@
    } else if k == 10 {
        "Year"@
    } else if k == 11 {
        "Month"@
    } else if k == 12 {
        "Day"@
    } else if k == 13 {
        "Writer"@
    } else if k == 14 {
        "Penciller"@
    } else if k == 15 {
        "Inker"@
    } else if k == 16 {
        "Colorist"@
    } else if k == 17 {
        "Letterer"@
    } else if k == 18 {
        "CoverArtist"@
    } else if k == 19 {
        "Editor"@
    } else if k == 20 {
        "Translator"@
    } else if k == 21 {
        "Publisher"@
    } else if k == 22 {
        "Imprint"@
    } else if k == 23 {
        "Genre"@
    } else if k == 24 {
        "Tags"@
    } else if k == 25 {
        "Web"@
    } else if k == 26 {
        "PageCount"@
    } else if k == 27 {
        "LanguageISO"@
    } else if k == 28 {
        "Format"@
    } else if k == 29 {
        "BlackAndWhite"@
    } else if k == 30 {
        "Manga"@
    } else if k == 31 {
        "Characters"@
    } else if k == 32 {
        "Teams"@
    } else if k == 33 {
        "Locations"@
    } else if k == 34 {
        "ScanInformation"@
    } else if k == 35 {
        "StoryArc"@
    } else if k == 36 {
        "StoryArcNumber"@
    } else if k == 37 {
        "SeriesGroup"@
    } else if k == 38 {
        "AgeRating"@
    } else if k == 39 {
        "CommunityRating"@
    } else if k == 40 {
        "MainCharacterOrTeam"@
    } else if k == 41 {
        "Review"@
    } else {
        "GTIN"@
    }
}

/// The kind of field `k`.
pub open spec fn kind(k: int) -> FieldKind {
    if k == 3 || k == 4 || k == 7 || k == 10 || k == 11 || k == 12 || k == 26 {
        FieldKind::Whole
    } else if k == 29 {
        FieldKind::YesNo
    } else if k == 30 {
        FieldKind::Manga
    } else if k == 38 {
        FieldKind::AgeRating
    } else if k == 39 {
        FieldKind::Real
    } else {
        FieldKind::Text
    }
}

/// The tag of field `k`.
pub fn field_tag(k: usize) -> (r: &'static str)
    requires
        k < FIELD_COUNT,
    ensures
        r@ == tag(k as int),
{
    if k == 0 {
        "Title"
    } else if k == 1 {
        "Series"
    } else if k == 2 {
        "Number"
    } else if k == 3 {
        "Count"
    } else if k == 4 {
        "Volume"
    } else if k == 5 {
        "AlternateSeries"
    } else if k == 6 {
        "AlternateNumber"
    } else if k == 7 {
        "AlternateCount"
    } else if k == 8 {
        "Summary"
    } else if k == 9 {
        "Notes"
    } else if k == 10 {
        "Year"
    } else if k == 11 {
        "Month"
    } else if k == 12 {
        "Day"
    } else if k == 13 {
        "Writer"
    } else if k == 14 {
        "Penciller"
    } else if k == 15 {
        "Inker"
    } else if k == 16 {
        "Colorist"
    } else if k == 17 {
        "Letterer"
    } else if k == 18 {
        "CoverArtist"
    } else if k == 19 {
        "Editor"
    } else if k == 20 {
        "Translator"
    } else if k == 21 {
        "Publisher"
    } else if k == 22 {
        "Imprint"
    } else if k == 23 {
        "Genre"
    } else if k == 24 {
        "Tags"
    } else if k == 25 {
        "Web"
    } else if k == 26 {
        "PageCount"
    } else if k == 27 {
        "LanguageISO"
    } else if k == 28 {
        "Format"
    } else if k == 29 {
        "BlackAndWhite"
    } else if k == 30 {
        "Manga"
    } else if k == 31 {
        "Characters"
    } else if k == 32 {
        "Teams"
    } else if k == 33 {
        "Locations"
    } else if k == 34 {
        "ScanInformation"
    } else if k == 35 {
        "StoryArc"
    } else if k == 36 {
        "StoryArcNumber"
    } else if k == 37 {
        "SeriesGroup"
    } else if k == 38 {
        "AgeRating"
    } else if k == 39 {
        "CommunityRating"
    } else if k == 40 {
        "MainCharacterOrTeam"
    } else if k == 41 {
        "Review"
    } else {
        "GTIN"
    }
}

/// The kind of field `k`.
pub fn field_kind(k: usize) -> (r: FieldKind)
    ensures
        r == kind(k as int),
{
    if k == 3 || k == 4 || k == 7 || k == 10 || k == 11 || k == 12 || k == 26 {
        FieldKind::Whole
    } else if k == 29 {
        FieldKind::YesNo
    } else if k == 30 {
        FieldKind::Manga
    } else if k == 38 {
        FieldKind::AgeRating
    } else if k == 39 {
        FieldKind::Real
    } else {
        FieldKind::Text
    }
}

/// No two fields share a tag.
pub proof fn lemma_tags_distinct(j: int, k: int)
    requires
        0 <= j < k < FIELD_COUNT,
    ensures
        tag(j) != tag(k),
{
    reveal_strlit("Title");
    reveal_strlit("Series");
    reveal_strlit("Number");
    reveal_strlit("Count");
    reveal_strlit("Volume");
    reveal_strlit("AlternateSeries");
    reveal_strlit("AlternateNumber");
    reveal_strlit("AlternateCount");
    reveal_strlit("Summary");
    reveal_strlit("Notes");
    reveal_strlit("Year");
    reveal_strlit("Month");
    reveal_strlit("Day");
    reveal_strlit("Writer");
    reveal_strlit("Penciller");
    reveal_strlit("Inker");
    reveal_strlit("Colorist");
    reveal_strlit("Letterer");
    reveal_strlit("CoverArtist");
    reveal_strlit("Editor");
    reveal_strlit("Translator");
    reveal_strlit("Publisher");
    reveal_strlit("Imprint");
    reveal_strlit("Genre");
    reveal_strlit("Tags");
    reveal_strlit("Web");
    reveal_strlit("PageCount");
    reveal_strlit("LanguageISO");
    reveal_strlit("Format");
    reveal_strlit("BlackAndWhite");
    reveal_strlit("Manga");
    reveal_strlit("Characters");
    reveal_strlit("Teams");
    reveal_strlit("Locations");
    reveal_strlit("ScanInformation");
    reveal_strlit("StoryArc");
    reveal_strlit("StoryArcNumber");
    reveal_strlit("SeriesGroup");
    reveal_strlit("AgeRating");
    reveal_strlit("CommunityRating");
    reveal_strlit("MainCharacterOrTeam");
    reveal_strlit("Review");
    reveal_strlit("GTIN");
    assert("Title"@.len() == 5);
    assert("Series"@.len() == 6);
    assert("Number"@.len() == 6);
    assert("Count"@.len() == 5);
    assert("Volume"@.len() == 6);
    assert("AlternateSeries"@.len() == 15);
    assert("AlternateNumber"@.len() == 15);
    assert("AlternateCount"@.len() == 14);
    assert("Summary"@.len() == 7);
    assert("Notes"@.len() == 5);
    assert("Year"@.len() == 4);
    assert("Month"@.len() == 5);
    assert("Day"@.len() == 3);
    assert("Writer"@.len() == 6);
    assert("Penciller"@.len() == 9);
    assert("Inker"@.len() == 5);
    assert("Colorist"@.len() == 8);
    assert("Letterer"@.len() == 8);
    assert("CoverArtist"@.len() == 11);
    assert("Editor"@.len() == 6);
    assert("Translator"@.len() == 10);
    assert("Publisher"@.len() == 9);
    assert("Imprint"@.len() == 7);
    assert("Genre"@.len() == 5);
    assert("Tags"@.len() == 4);
    assert("Web"@.len() == 3);
    assert("PageCount"@.len() == 9);
    assert("LanguageISO"@.len() == 11);
    assert("Format"@.len() == 6);
    assert("BlackAndWhite"@.len() == 13);
    assert("Manga"@.len() == 5);
    assert("Characters"@.len() == 10);
    assert("Teams"@.len() == 5);
    assert("Locations"@.len() == 9);
    assert("ScanInformation"@.len() == 15);
    assert("StoryArc"@.len() == 8);
    assert("StoryArcNumber"@.len() == 14);
    assert("SeriesGroup"@.len() == 11);
    assert("AgeRating"@.len() == 9);
    assert("CommunityRating"@.len() == 15);
    assert("MainCharacterOrTeam"@.len() == 19);
    assert("Review"@.len() == 6);
    assert("GTIN"@.len() == 4);
    assert("Title"@[0] == 'T');
    assert("Count"@[0] == 'C');
    assert("Notes"@[0] == 'N');
    assert("Month"@[0] == 'M');
    assert("Inker"@[0] == 'I');
    assert("Genre"@[0] == 'G');
    assert("Manga"@[0] == 'M');
    assert("Title"@[1] == 'i');
    assert("Teams"@[1] == 'e');
    assert("Series"@[0] == 'S');
    assert("Number"@[0] == 'N');
    assert("Volume"@[0] == 'V');
    assert("Writer"@[0] == 'W');
    assert("Editor"@[0] == 'E');
    assert("Format"@[0] == 'F');
    assert("Review"@[0] == 'R');
    assert("Teams"@[0] == 'T');
    assert("AlternateSeries"@[9] == 'S');
    assert("AlternateNumber"@[9] == 'N');
    assert("AlternateSeries"@[0] == 'A');
    assert("ScanInformation"@[0] == 'S');
    assert("CommunityRating"@[0] == 'C');
    assert("AlternateNumber"@[0] == 'A');
    assert("AlternateCount"@[0] == 'A');
    assert("StoryArcNumber"@[0] == 'S');
    assert("Summary"@[0] == 'S');
    assert("Imprint"@[0] == 'I');
    assert("Year"@[0] == 'Y');
    assert("Tags"@[0] == 'T');
    assert("GTIN"@[0] == 'G');
    assert("Month"@[1] == 'o');
    assert("Manga"@[1] == 'a');
    assert("Day"@[0] == 'D');
    assert("Web"@[0] == 'W');
    assert("Penciller"@[1] == 'e');
    assert("Publisher"@[1] == 'u');
    assert("PageCount"@[1] == 'a');
    assert("Penciller"@[0] == 'P');
    assert("Locations"@[0] == 'L');
    assert("AgeRating"@[0] == 'A');
    assert("Colorist"@[0] == 'C');
    assert("Letterer"@[0] == 'L');
    assert("StoryArc"@[0] == 'S');
    assert("CoverArtist"@[0] == 'C');
    assert("LanguageISO"@[0] == 'L');
    assert("SeriesGroup"@[0] == 'S');
    assert("Translator"@[0] == 'T');
    assert("Characters"@[0] == 'C');
    assert("Publisher"@[0] == 'P');
    assert("PageCount"@[0] == 'P');
}

/// The name of the root element.
pub open spec fn root_tag() -> Seq<char> {
    "ComicInfo"@
}

/// No field has the root element's name for its tag.
pub proof fn lemma_root_is_no_field(k: int)
    requires
        0 <= k < FIELD_COUNT,
    ensures
        tag(k) != root_tag(),
{
    reveal_strlit("ComicInfo");
    reveal_strlit("Penciller");
    reveal_strlit("Publisher");
    reveal_strlit("PageCount");
    reveal_strlit("Locations");
    reveal_strlit("AgeRating");
    assert("ComicInfo"@.len() == 9);
    assert("Penciller"@.len() == 9);
    assert("Publisher"@.len() == 9);
    assert("PageCount"@.len() == 9);
    assert("Locations"@.len() == 9);
    assert("AgeRating"@.len() == 9);
    assert("ComicInfo"@[0] == 'C');
    assert("Penciller"@[0] == 'P');
    assert("Publisher"@[0] == 'P');
    assert("PageCount"@[0] == 'P');
    assert("Locations"@[0] == 'L');
    assert("AgeRating"@[0] == 'A');
    assert("Penciller"@[1] == 'e');
    assert("Publisher"@[1] == 'u');
    assert("PageCount"@[1] == 'a');
    reveal_strlit("Title");
    reveal_strlit("Series");
    reveal_strlit("Number");
    reveal_strlit("Count");
    reveal_strlit("Volume");
    reveal_strlit("AlternateSeries");
    reveal_strlit("AlternateNumber");
    reveal_strlit("AlternateCount");
    reveal_strlit("Summary");
    reveal_strlit("Notes");
    reveal_strlit("Year");
    reveal_strlit("Month");
    reveal_strlit("Day");
    reveal_strlit("Writer");
    reveal_strlit("Inker");
    reveal_strlit("Colorist");
    reveal_strlit("Letterer");
    reveal_strlit("CoverArtist");
    reveal_strlit("Editor");
    reveal_strlit("Translator");
    reveal_strlit("Imprint");
    reveal_strlit("Genre");
    reveal_strlit("Tags");
    reveal_strlit("Web");
    reveal_strlit("LanguageISO");
    reveal_strlit("Format");
    reveal_strlit("BlackAndWhite");
    reveal_strlit("Manga");
    reveal_strlit("Characters");
    reveal_strlit("Teams");
    reveal_strlit("ScanInformation");
    reveal_strlit("StoryArc");
    reveal_strlit("StoryArcNumber");
    reveal_strlit("SeriesGroup");
    reveal_strlit("CommunityRating");
    reveal_strlit("MainCharacterOrTeam");
    reveal_strlit("Review");
    reveal_strlit("GTIN");
    assert("Title"@.len() == 5);
    assert("Series"@.len() == 6);
    assert("Number"@.len() == 6);
    assert("Count"@.len() == 5);
    assert("Volume"@.len() == 6);
    assert("AlternateSeries"@.len() == 15);
    assert("AlternateNumber"@.len() == 15);
    assert("AlternateCount"@.len() == 14);
    assert("Summary"@.len() == 7);
    assert("Notes"@.len() == 5);
    assert("Year"@.len() == 4);
    assert("Month"@.len() == 5);
    assert("Day"@.len() == 3);
    assert("Writer"@.len() == 6);
    assert("Inker"@.len() == 5);
    assert("Colorist"@.len() == 8);
    assert("Letterer"@.len() == 8);
    assert("CoverArtist"@.len() == 11);
    assert("Editor"@.len() == 6);
    assert("Translator"@.len() == 10);
    assert("Imprint"@.len() == 7);
    assert("Genre"@.len() == 5);
    assert("Tags"@.len() == 4);
    assert("Web"@.len() == 3);
    assert("LanguageISO"@.len() == 11);
    assert("Format"@.len() == 6);
    assert("BlackAndWhite"@.len() == 13);
    assert("Manga"@.len() == 5);
    assert("Characters"@.len() == 10);
    assert("Teams"@.len() == 5);
    assert("ScanInformation"@.len() == 15);
    assert("StoryArc"@.len() == 8);
    assert("StoryArcNumber"@.len() == 14);
    assert("SeriesGroup"@.len() == 11);
    assert("CommunityRating"@.len() == 15);
    assert("MainCharacterOrTeam"@.len() == 19);
    assert("Review"@.len() == 6);
    assert("GTIN"@.len() == 4);
}

impl Default for ComicInfo {
    fn default() -> (r: Self)
        ensures
            r@ == Document::empty(),
    {
        ComicInfo {
            title: None,
            series: None,
            number: None,
            count: None,
            volume: None,
            alternate_series: None,
            alternate_number: None,
            alternate_count: None,
            summary: None,
            notes: None,
            year: None,
            month: None,
            day: None,
            writer: None,
            penciller: None,
            inker: None,
            colorist: None,
            letterer: None,
            cover_artist: None,
            editor: None,
            translator: None,
            publisher: None,
            imprint: None,
            genre: None,
            tags: None,
            web: None,
            page_count: None,
            language_iso: None,
            format: None,
            black_and_white: None,
            manga: None,
            characters: None,
            teams: None,
            locations: None,
            scan_information: None,
            story_arc: None,
            story_arc_number: None,
            series_group: None,
            age_rating: None,
            community_rating: None,
            main_character_or_team: None,
            review: None,
            gtin: None,
        }
    }
}

/// A copy of an optional text.
pub(crate) fn copy_text(text: &Option<String>) -> (r: Option<String>)
    ensures
        text_view(r) == text_view(*text),
{
    match text {
        Some(s) => Some(s.clone()),
        None => None,
    }
}

/// The decimal text of an optional number.
fn whole_slot(n: &Option<i32>) -> (r: Option<String>)
    ensures
        text_view(r) == whole_text(*n),
{
    match n {
        Some(v) => Some(format_i32(*v)),
        None => None,
    }
}

/// An optional label, as a string of its own.
fn label_slot(label: Option<&'static str>) -> (r: Option<String>)
    ensures
        match label {
            Some(s) => text_view(r) == Some(s@),
            None => r is None,
        },
{
    match label {
        Some(s) => Some(s.to_owned()),
        None => None,
    }
}

/// Reads the value of an optional text.
fn read_whole(slot: &Option<String>) -> (r: Option<i32>)
    ensures
        r == whole_at(text_view(*slot)),
{
    match slot {
        Some(text) => read_i32(text.as_str()),
        None => None,
    }
}

/// Reads the value of an optional text.
fn read_yes_no(slot: &Option<String>) -> (r: Option<YesNo>)
    ensures
        r == yes_no_at(text_view(*slot)),
{
    match slot {
        Some(text) => YesNo::from_label(text.as_str()),
        None => None,
    }
}

/// Reads the value of an optional text.
fn read_manga(slot: &Option<String>) -> (r: Option<Manga>)
    ensures
        r == manga_at(text_view(*slot)),
{
    match slot {
        Some(text) => Manga::from_label(text.as_str()),
        None => None,
    }
}

/// Reads the value of an optional text.
fn read_age_rating(slot: &Option<String>) -> (r: Option<AgeRating>)
    ensures
        r == age_rating_at(text_view(*slot)),
{
    match slot {
        Some(text) => AgeRating::from_label(text.as_str()),
        None => None,
    }
}

impl ComicInfo {
    /// Field `k` as an optional text.
    pub(crate) fn slot(&self, k: usize) -> (r: Option<String>)
        requires
            k < FIELD_COUNT,
        ensures
            text_view(r) == self@.slot(k as int),
    {
        if k == 0 {
            copy_text(&self.title)
        } else if k == 1 {
            copy_text(&self.series)
        } else if k == 2 {
            copy_text(&self.number)
        } else if k == 3 {
            whole_slot(&self.count)
        } else if k == 4 {
            whole_slot(&self.volume)
        } else if k == 5 {
            copy_text(&self.alternate_series)
        } else if k == 6 {
            copy_text(&self.alternate_number)
        } else if k == 7 {
            whole_slot(&self.alternate_count)
        } else if k == 8 {
            copy_text(&self.summary)
        } else if k == 9 {
            copy_text(&self.notes)
        } else if k == 10 {
            whole_slot(&self.year)
        } else if k == 11 {
            whole_slot(&self.month)
        } else if k == 12 {
            whole_slot(&self.day)
        } else if k == 13 {
            copy_text(&self.writer)
        } else if k == 14 {
            copy_text(&self.penciller)
        } else if k == 15 {
            copy_text(&self.inker)
        } else if k == 16 {
            copy_text(&self.colorist)
        } else if k == 17 {
            copy_text(&self.letterer)
        } else if k == 18 {
            copy_text(&self.cover_artist)
        } else if k == 19 {
            copy_text(&self.editor)
        } else if k == 20 {
            copy_text(&self.translator)
        } else if k == 21 {
            copy_text(&self.publisher)
        } else if k == 22 {
            copy_text(&self.imprint)
        } else if k == 23 {
            copy_text(&self.genre)
        } else if k == 24 {
            copy_text(&self.tags)
        } else if k == 25 {
            copy_text(&self.web)
        } else if k == 26 {
            whole_slot(&self.page_count)
        } else if k == 27 {
            copy_text(&self.language_iso)
        } else if k == 28 {
            copy_text(&self.format)
        } else if k == 29 {
            label_slot(match &self.black_and_white {
                Some(v) => Some(v.label()),
                None => None,
            })
        } else if k == 30 {
            label_slot(match &self.manga {
                Some(v) => Some(v.label()),
                None => None,
            })
        } else if k == 31 {
            copy_text(&self.characters)
        } else if k == 32 {
            copy_text(&self.teams)
        } else if k == 33 {
            copy_text(&self.locations)
        } else if k == 34 {
            copy_text(&self.scan_information)
        } else if k == 35 {
            copy_text(&self.story_arc)
        } else if k == 36 {
            copy_text(&self.story_arc_number)
        } else if k == 37 {
            copy_text(&self.series_group)
        } else if k == 38 {
            label_slot(match &self.age_rating {
                Some(v) => Some(v.label()),
                None => None,
            })
        } else if k == 39 {
            copy_text(&self.community_rating)
        } else if k == 40 {
            copy_text(&self.main_character_or_team)
        } else if k == 41 {
            copy_text(&self.review)
        } else {
            copy_text(&self.gtin)
        }
    }

    /// The fields as optional texts, in the order of the schema.
    pub fn to_slots(&self) -> (slots: Vec<Option<String>>)
        ensures
            slots.len() == FIELD_COUNT,
            slot_views(slots@) == self@.slots(),
    {
        let mut slots: Vec<Option<String>> = Vec::new();
        let mut k: usize = 0;
        while k < FIELD_COUNT
            invariant
                k <= FIELD_COUNT,
                slots.len() == k,
                forall|j: int| 0 <= j < k ==> text_view(#[trigger] slots@[j]) == self@.slot(j),
            decreases FIELD_COUNT - k,
        {
            slots.push(self.slot(k));
            k = k + 1;
        }
        assert(slot_views(slots@) =~= self@.slots());
        slots
    }

    /// The document that a full row of slots stands for. Where a slot holds
    /// something that is no value of its field, the field comes out absent;
    /// `fault_before` tells whether there is such a slot.
    pub(crate) fn of_slots(slots: &Vec<Option<String>>) -> (r: Self)
        requires
            slots.len() == FIELD_COUNT,
        ensures
            r@ == Document::of_slots(slot_views(slots@)),
    {
        ComicInfo {
            title: copy_text(&slots[0]),
            series: copy_text(&slots[1]),
            number: copy_text(&slots[2]),
            count: read_whole(&slots[3]),
            volume: read_whole(&slots[4]),
            alternate_series: copy_text(&slots[5]),
            alternate_number: copy_text(&slots[6]),
            alternate_count: read_whole(&slots[7]),
            summary: copy_text(&slots[8]),
            notes: copy_text(&slots[9]),
            year: read_whole(&slots[10]),
            month: read_whole(&slots[11]),
            day: read_whole(&slots[12]),
            writer: copy_text(&slots[13]),
            penciller: copy_text(&slots[14]),
            inker: copy_text(&slots[15]),
            colorist: copy_text(&slots[16]),
            letterer: copy_text(&slots[17]),
            cover_artist: copy_text(&slots[18]),
            editor: copy_text(&slots[19]),
            translator: copy_text(&slots[20]),
            publisher: copy_text(&slots[21]),
            imprint: copy_text(&slots[22]),
            genre: copy_text(&slots[23]),
            tags: copy_text(&slots[24]),
            web: copy_text(&slots[25]),
            page_count: read_whole(&slots[26]),
            language_iso: copy_text(&slots[27]),
            format: copy_text(&slots[28]),
            black_and_white: read_yes_no(&slots[29]),
            manga: read_manga(&slots[30]),
            characters: copy_text(&slots[31]),
            teams: copy_text(&slots[32]),
            locations: copy_text(&slots[33]),
            scan_information: copy_text(&slots[34]),
            story_arc: copy_text(&slots[35]),
            story_arc_number: copy_text(&slots[36]),
            series_group: copy_text(&slots[37]),
            age_rating: read_age_rating(&slots[38]),
            community_rating: copy_text(&slots[39]),
            main_character_or_team: copy_text(&slots[40]),
            review: copy_text(&slots[41]),
            gtin: copy_text(&slots[42]),
        }
    }
}

/// What is wrong with the text of field `k`, if anything.
pub open spec fn fault_at(slots: Seq<Option<Seq<char>>>, k: int) -> Option<ParseError> {
    match slots[k] {
        None => None,
        Some(text) => match kind(k) {
            FieldKind::Text => None,
            FieldKind::Whole => if parse_i32(text) is None {
                Some(ParseError::InvalidNumber { field: k as usize })
            } else {
                None
            },
            FieldKind::Real => if !is_real_literal(text) {
                Some(ParseError::InvalidNumber { field: k as usize })
            } else {
                None
            },
            FieldKind::YesNo => if YesNo::of_text(text) is None {
                Some(ParseError::UnknownLabel { field: k as usize })
            } else {
                None
            },
            FieldKind::Manga => if Manga::of_text(text) is None {
                Some(ParseError::UnknownLabel { field: k as usize })
            } else {
                None
            },
            FieldKind::AgeRating => if AgeRating::of_text(text) is None {
                Some(ParseError::UnknownLabel { field: k as usize })
            } else {
                None
            },
        },
    }
}

/// The first fault among the fields before `k`, in the order of the schema.
pub open spec fn fault_before(slots: Seq<Option<Seq<char>>>, k: int) -> Option<ParseError>
    decreases k,
{
    if k <= 0 {
        None
    } else {
        match fault_before(slots, k - 1) {
            Some(e) => Some(e),
            None => fault_at(slots, k - 1),
        }
    }
}

/// The document that a row of slots stands for: the first fault, or the
/// fields read each by its kind.
pub open spec fn from_slots(slots: Seq<Option<Seq<char>>>) -> Result<Document, ParseError> {
    match fault_before(slots, FIELD_COUNT as int) {
        Some(e) => Err(e),
        None => Ok(Document::of_slots(slots)),
    }
}

/// What is wrong with the text of field `k`, if anything.
pub(crate) fn check_slot(slot: &Option<String>, k: usize) -> (r: Option<ParseError>)
    ensures
        forall|slots: Seq<Option<Seq<char>>>|
            0 <= k < slots.len() && #[trigger] slots[k as int] == text_view(*slot) ==> r == fault_at(
                slots,
                k as int,
            ),
{
    match slot {
        None => None,
        Some(text) => match field_kind(k) {
            FieldKind::Text => None,
            FieldKind::Whole => if read_i32(text.as_str()).is_none() {
                Some(ParseError::InvalidNumber { field: k })
            } else {
                None
            },
            FieldKind::Real => if !is_real_text(text.as_str()) {
                Some(ParseError::InvalidNumber { field: k })
            } else {
                None
            },
            FieldKind::YesNo => if YesNo::from_label(text.as_str()).is_none() {
                Some(ParseError::UnknownLabel { field: k })
            } else {
                None
            },
            FieldKind::Manga => if Manga::from_label(text.as_str()).is_none() {
                Some(ParseError::UnknownLabel { field: k })
            } else {
                None
            },
            FieldKind::AgeRating => if AgeRating::from_label(text.as_str()).is_none() {
                Some(ParseError::UnknownLabel { field: k })
            } else {
                None
            },
        },
    }
}

/// Reads a full row of slots as a document.
pub(crate) fn read_slots(slots: &Vec<Option<String>>) -> (r: Result<ComicInfo, ParseError>)
    requires
        slots.len() == FIELD_COUNT,
    ensures
        match r {
            Ok(info) => from_slots(slot_views(slots@)) == Ok::<Document, ParseError>(info@),
            Err(e) => from_slots(slot_views(slots@)) == Err::<Document, ParseError>(e),
        },
{
    let mut k: usize = 0;
    while k < FIELD_COUNT
        invariant
            k <= FIELD_COUNT,
            slots.len() == FIELD_COUNT,
            fault_before(slot_views(slots@), k as int) is None,
        decreases FIELD_COUNT - k,
    {
        assert(slot_views(slots@)[k as int] == text_view(slots@[k as int]));
        match check_slot(&slots[k], k) {
            Some(e) => {
                proof {
                    lemma_fault_stays(slot_views(slots@), k + 1, FIELD_COUNT as int);
                }
                return Err(e);
            },
            None => {},
        }
        k = k + 1;
    }
    Ok(ComicInfo::of_slots(slots))
}

/// Once a fault is found among the first fields, it is the first fault of
/// every longer run of fields.
pub proof fn lemma_fault_stays(slots: Seq<Option<Seq<char>>>, j: int, k: int)
    requires
        j <= k,
        fault_before(slots, j) is Some,
    ensures
        fault_before(slots, k) == fault_before(slots, j),
    decreases k - j,
{
    if j < k {
        lemma_fault_stays(slots, j, k - 1);
    }
}

/// The slots of a valid document hold no fault.
pub proof fn lemma_slots_hold_no_fault(d: Document, k: int)
    requires
        d.valid(),
        0 <= k <= FIELD_COUNT,
    ensures
        fault_before(d.slots(), k) is None,
    decreases k,
{
    if k > 0 {
        lemma_slots_hold_no_fault(d, k - 1);
        lemma_slots_read_back(d);
    }
}

/// The slots of a document are read back as the document's own values.
pub proof fn lemma_slots_read_back(d: Document)
    ensures
        Document::of_slots(d.slots()) == d,
        forall|k: int| 0 <= k < FIELD_COUNT && kind(k) != FieldKind::Real ==> fault_at(d.slots(), k) is None,
        d.slots().len() == FIELD_COUNT,
{
    match d.count {
        Some(n) => lemma_decimal_round_trip(n as int),
        None => {},
    }
    match d.volume {
        Some(n) => lemma_decimal_round_trip(n as int),
        None => {},
    }
    match d.alternate_count {
        Some(n) => lemma_decimal_round_trip(n as int),
        None => {},
    }
    match d.year {
        Some(n) => lemma_decimal_round_trip(n as int),
        None => {},
    }
    match d.month {
        Some(n) => lemma_decimal_round_trip(n as int),
        None => {},
    }
    match d.day {
        Some(n) => lemma_decimal_round_trip(n as int),
        None => {},
    }
    match d.page_count {
        Some(n) => lemma_decimal_round_trip(n as int),
        None => {},
    }
    match d.black_and_white {
        Some(v) => v.lemma_label_round_trip(),
        None => {},
    }
    match d.manga {
        Some(v) => v.lemma_label_round_trip(),
        None => {},
    }
    match d.age_rating {
        Some(v) => v.lemma_label_round_trip(),
        None => {},
    }
}

/// A field that holds a label takes nothing but one of its labels: a row of
/// slots with any other text in such a field is refused.
pub proof fn lemma_unknown_label_is_refused(slots: Seq<Option<Seq<char>>>, k: int)
    requires
        0 <= k < FIELD_COUNT,
        slots[k] matches Some(text) && match kind(k) {
            FieldKind::YesNo => YesNo::of_text(text) is None,
            FieldKind::Manga => Manga::of_text(text) is None,
            FieldKind::AgeRating => AgeRating::of_text(text) is None,
            _ => false,
        },
    ensures
        from_slots(slots) is Err,
{
    assert(fault_at(slots, k) is Some);
    assert(fault_before(slots, k + 1) is Some);
    lemma_fault_stays(slots, k + 1, FIELD_COUNT as int);
}

/// Writing a valid document as slots and reading the slots gives the
/// document back.
pub proof fn lemma_slots_round_trip(d: Document)
    requires
        d.valid(),
    ensures
        from_slots(d.slots()) == Ok::<Document, ParseError>(d),
{
    lemma_slots_hold_no_fault(d, FIELD_COUNT as int);
    lemma_slots_read_back(d);
}

} // verus!
