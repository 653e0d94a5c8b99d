//! The XML form of a ComicInfo document. Writing lays the fields out as
//! tokens and renders the tokens; reading runs a small machine over the
//! tokens of a text and fills the fields from the root's children.

use vstd::prelude::*;
use crate::comicinfo::{
    field_tag, from_slots, kind, lemma_root_is_no_field, lemma_slots_round_trip,
    lemma_tags_distinct, lemma_unknown_label_is_refused, read_slots, root_tag, slot_views, tag,
    text_view, AgeRating, ComicInfo, Document, FieldKind, Manga, YesNo, FIELD_COUNT,
};
use crate::error::{EncodeError, ParseError};
use crate::decimal::is_real_text;
use crate::text::same_text;
use crate::xml::{lexemes, render, rendered, same_token, tokenize, xml_lexing, Lexeme, Token};

verus! {

/// The line that opens every written document.
pub open spec fn declaration() -> Seq<char> {
    "<?xml version=\"1.0\" encoding=\"utf-8\"?>\n"@
}

/// A row of slots with nothing in it.
pub open spec fn empty_slots() -> Seq<Option<Seq<char>>> {
    Seq::new(FIELD_COUNT as nat, |k: int| None)
}

/// The first field from `k` on whose tag is `name`.
pub open spec fn field_of_tag_from(name: Seq<char>, k: int) -> Option<int>
    decreases FIELD_COUNT - k,
{
    if k < 0 || k >= FIELD_COUNT {
        None
    } else if tag(k) == name {
        Some(k)
    } else {
        field_of_tag_from(name, k + 1)
    }
}

/// The field whose tag is `name`.
pub open spec fn field_of_tag(name: Seq<char>) -> Option<int> {
    field_of_tag_from(name, 0)
}

// What a document is written as.

/// The tokens that field `k` is written as: none where it is absent, one
/// self-closing tag where its text is empty, else a start tag, the text and
/// an end tag.
pub open spec fn field_tokens(k: int, slot: Option<Seq<char>>) -> Seq<Lexeme> {
    match slot {
        None => Seq::empty(),
        Some(text) => if text.len() == 0 {
            seq![Lexeme::Leaf(tag(k))]
        } else {
            seq![Lexeme::Open(tag(k)), Lexeme::Text(text), Lexeme::Close(tag(k))]
        },
    }
}

/// The tokens of the fields before `k`, in the order of the schema.
pub open spec fn inner_tokens(slots: Seq<Option<Seq<char>>>, k: int) -> Seq<Lexeme>
    decreases k,
{
    if k <= 0 {
        Seq::empty()
    } else {
        inner_tokens(slots, k - 1) + field_tokens(k - 1, slots[k - 1])
    }
}

/// The tokens of a whole document: the root element around the tokens of
/// its fields, or a self-closing root where no field is present.
pub open spec fn document_tokens(slots: Seq<Option<Seq<char>>>) -> Seq<Lexeme> {
    let inner = inner_tokens(slots, slots.len() as int);
    if inner.len() == 0 {
        seq![Lexeme::Leaf(root_tag())]
    } else {
        seq![Lexeme::Open(root_tag())] + inner + seq![Lexeme::Close(root_tag())]
    }
}

/// The text of a document: the declaration, then the document's tokens.
pub open spec fn encoded(d: Document) -> Seq<char> {
    declaration() + rendered(document_tokens(d.slots()))
}

/// The tokens that the declaration line is read as: the declaration itself,
/// and the line break after it.
pub open spec fn prolog_tokens() -> Seq<Lexeme> {
    seq![Lexeme::Other, Lexeme::Text("\n"@)]
}

/// The text of a document is read back as the tokens it was written from.
pub open spec fn reads_back(d: Document) -> bool {
    xml_lexing(encoded(d)) == (prolog_tokens() + document_tokens(d.slots()), true)
}

// What a text is read as.

/// How far the reading of a document has come.
pub enum Progress {
    /// Before the root element.
    Prolog,
    /// Inside the root element, between two children.
    Root { slots: Seq<Option<Seq<char>>> },
    /// Inside the child `name`, `depth` elements below it, with the child's
    /// own text so far.
    Child { slots: Seq<Option<Seq<char>>>, name: Seq<char>, depth: nat, text: Seq<char> },
    /// After the root element.
    Done { slots: Seq<Option<Seq<char>>> },
    /// Given up.
    Failed { error: ParseError },
}

/// A child of the root has been read: a known field takes the text, unless
/// it has one already; any other element is passed over.
pub open spec fn put(slots: Seq<Option<Seq<char>>>, name: Seq<char>, text: Seq<char>) -> Progress {
    match field_of_tag(name) {
        None => Progress::Root { slots },
        Some(k) => if slots[k] is Some {
            Progress::Failed { error: ParseError::DuplicateField { field: k as usize } }
        } else {
            Progress::Root { slots: slots.update(k, Some(text)) }
        },
    }
}

/// What one token does to the reading.
pub open spec fn step(progress: Progress, token: Lexeme) -> Progress {
    match progress {
        Progress::Prolog => match token {
            Lexeme::Open(name) => if name == root_tag() {
                Progress::Root { slots: empty_slots() }
            } else {
                Progress::Failed { error: ParseError::UnexpectedRoot }
            },
            Lexeme::Leaf(name) => if name == root_tag() {
                Progress::Done { slots: empty_slots() }
            } else {
                Progress::Failed { error: ParseError::UnexpectedRoot }
            },
            Lexeme::Close(_) => Progress::Failed { error: ParseError::Malformed },
            _ => Progress::Prolog,
        },
        Progress::Root { slots } => match token {
            Lexeme::Open(name) => Progress::Child { slots, name, depth: 0, text: Seq::empty() },
            Lexeme::Leaf(name) => put(slots, name, Seq::empty()),
            Lexeme::Close(_) => Progress::Done { slots },
            _ => progress,
        },
        Progress::Child { slots, name, depth, text } => match token {
            Lexeme::Open(_) => Progress::Child { slots, name, depth: depth + 1, text },
            Lexeme::Close(_) => if depth == 0 {
                put(slots, name, text)
            } else {
                Progress::Child { slots, name, depth: (depth - 1) as nat, text }
            },
            Lexeme::Text(more) => if depth == 0 {
                Progress::Child { slots, name, depth, text: text + more }
            } else {
                progress
            },
            _ => progress,
        },
        Progress::Done { slots } => progress,
        Progress::Failed { error } => progress,
    }
}

/// What a run of tokens does to the reading.
pub open spec fn run(progress: Progress, tokens: Seq<Lexeme>) -> Progress
    decreases tokens.len(),
{
    if tokens.len() == 0 {
        progress
    } else {
        step(run(progress, tokens.drop_last()), tokens.last())
    }
}

/// The slots that a run of tokens fills. A run that ends before the root
/// element is closed is not a document.
pub open spec fn slots_of_tokens(tokens: Seq<Lexeme>) -> Result<Seq<Option<Seq<char>>>, ParseError> {
    match run(Progress::Prolog, tokens) {
        Progress::Done { slots } => Ok(slots),
        Progress::Failed { error } => Err(error),
        _ => Err(ParseError::Malformed),
    }
}

/// The document that a run of tokens stands for.
pub open spec fn decoded(tokens: Seq<Lexeme>) -> Result<Document, ParseError> {
    match slots_of_tokens(tokens) {
        Ok(slots) => from_slots(slots),
        Err(error) => Err(error),
    }
}

/// The document that a text stands for.
pub open spec fn parsed(text: Seq<char>) -> Result<Document, ParseError> {
    if xml_lexing(text).1 {
        decoded(xml_lexing(text).0)
    } else {
        Err(ParseError::Malformed)
    }
}

/// Finds the field whose tag is `name`.
pub fn find_field(name: &str) -> (r: Option<usize>)
    ensures
        match r {
            Some(k) => k < FIELD_COUNT && field_of_tag(name@) == Some(k as int),
            None => field_of_tag(name@) is None,
        },
{
    let mut k: usize = 0;
    while k < FIELD_COUNT
        invariant
            k <= FIELD_COUNT,
            field_of_tag(name@) == field_of_tag_from(name@, k as int),
        decreases FIELD_COUNT - k,
    {
        if same_text(field_tag(k), name) {
            return Some(k);
        }
        k = k + 1;
    }
    None
}

/// Where the reading stands, without what it holds.
#[derive(Clone, Copy, PartialEq, Eq, Structural)]
enum Phase {
    Prolog,
    Root,
    Child,
    Done,
}

/// The reading of a document, held in executable form.
struct Reading {
    phase: Phase,
    slots: Vec<Option<String>>,
    name: String,
    depth: usize,
    text: String,
}

impl Reading {
    /// What the reading stands for.
    spec fn progress(self) -> Progress {
        match self.phase {
            Phase::Prolog => Progress::Prolog,
            Phase::Root => Progress::Root { slots: slot_views(self.slots@) },
            Phase::Child => Progress::Child {
                slots: slot_views(self.slots@),
                name: self.name@,
                depth: self.depth as nat,
                text: self.text@,
            },
            Phase::Done => Progress::Done { slots: slot_views(self.slots@) },
        }
    }

    /// The row of slots is full, and before the root element it is empty.
    spec fn well_formed(self) -> bool {
        &&& self.slots.len() == FIELD_COUNT
        &&& self.phase == Phase::Prolog ==> slot_views(self.slots@) == empty_slots()
    }

    /// A reading at the start of a text.
    fn start() -> (r: Reading)
        ensures
            r.well_formed(),
            r.progress() == Progress::Prolog,
            r.depth == 0,
            slot_views(r.slots@) == empty_slots(),
    {
        let mut slots: Vec<Option<String>> = Vec::new();
        let mut k: usize = 0;
        while k < FIELD_COUNT
            invariant
                k <= FIELD_COUNT,
                slots.len() == k,
                forall|j: int| 0 <= j < k ==> #[trigger] slots@[j] is None,
            decreases FIELD_COUNT - k,
        {
            slots.push(None);
            k = k + 1;
        }
        assert(slot_views(slots@) =~= empty_slots());
        Reading { phase: Phase::Prolog, slots, name: String::new(), depth: 0, text: String::new() }
    }

    /// Closes a child of the root: `put`, in executable form.
    fn place(self, name: &str, text: String) -> (r: Result<Reading, ParseError>)
        requires
            self.well_formed(),
        ensures
            match r {
                Ok(next) => next.well_formed() && next.depth == self.depth && next.progress()
                    == put(slot_views(self.slots@), name@, text@),
                Err(error) => put(slot_views(self.slots@), name@, text@) == (Progress::Failed {
                    error,
                }),
            },
    {
        let mut next = self;
        next.phase = Phase::Root;
        match find_field(name) {
            None => Ok(next),
            Some(k) => {
                assert(slot_views(next.slots@)[k as int] == text_view(next.slots@[k as int]));
                if next.slots[k].is_some() {
                    Err(ParseError::DuplicateField { field: k })
                } else {
                    let ghost before = slot_views(next.slots@);
                    next.slots.set(k, Some(text));
                    assert(slot_views(next.slots@) =~= before.update(k as int, Some(text@)));
                    Ok(next)
                }
            },
        }
    }

    /// Takes one token: `step`, in executable form.
    fn feed(self, token: &Token) -> (r: Result<Reading, ParseError>)
        requires
            self.well_formed(),
            self.depth < usize::MAX,
        ensures
            match r {
                Ok(next) => next.well_formed() && next.progress() == step(self.progress(), token@)
                    && next.depth <= self.depth + 1,
                Err(error) => step(self.progress(), token@) == (Progress::Failed { error }),
            },
    {
        let mut next = self;
        match next.phase {
            Phase::Prolog => match token {
                Token::Open(name) => {
                    if same_text(name.as_str(), "ComicInfo") {
                        next.phase = Phase::Root;
                        Ok(next)
                    } else {
                        Err(ParseError::UnexpectedRoot)
                    }
                },
                Token::Leaf(name) => {
                    if same_text(name.as_str(), "ComicInfo") {
                        next.phase = Phase::Done;
                        Ok(next)
                    } else {
                        Err(ParseError::UnexpectedRoot)
                    }
                },
                Token::Close(_) => Err(ParseError::Malformed),
                _ => Ok(next),
            },
            Phase::Root => match token {
                Token::Open(name) => {
                    next.phase = Phase::Child;
                    next.name = name.clone();
                    next.depth = 0;
                    next.text = String::new();
                    Ok(next)
                },
                Token::Leaf(name) => next.place(name.as_str(), String::new()),
                Token::Close(_) => {
                    next.phase = Phase::Done;
                    Ok(next)
                },
                _ => Ok(next),
            },
            Phase::Child => match token {
                Token::Open(_) => {
                    next.depth = next.depth + 1;
                    Ok(next)
                },
                Token::Close(_) => {
                    if next.depth == 0 {
                        let name = next.name.clone();
                        let text = next.text.clone();
                        next.place(name.as_str(), text)
                    } else {
                        next.depth = next.depth - 1;
                        Ok(next)
                    }
                },
                Token::Text(more) => {
                    if next.depth == 0 {
                        next.text.append(more.as_str());
                    }
                    Ok(next)
                },
                _ => Ok(next),
            },
            Phase::Done => Ok(next),
        }
    }
}

/// A reading that has failed stays failed.
pub proof fn lemma_failed_stays(error: ParseError, tokens: Seq<Lexeme>)
    ensures
        run(Progress::Failed { error }, tokens) == (Progress::Failed { error }),
    decreases tokens.len(),
{
    if tokens.len() > 0 {
        lemma_failed_stays(error, tokens.drop_last());
    }
}

/// Reading goes token by token.
pub proof fn lemma_run_push(progress: Progress, tokens: Seq<Lexeme>, token: Lexeme)
    ensures
        run(progress, tokens.push(token)) == step(run(progress, tokens), token),
{
    assert(tokens.push(token).drop_last() == tokens);
}

/// Reading two runs one after the other reads their concatenation.
pub proof fn lemma_run_concat(progress: Progress, a: Seq<Lexeme>, b: Seq<Lexeme>)
    ensures
        run(progress, a + b) == run(run(progress, a), b),
    decreases b.len(),
{
    if b.len() == 0 {
        assert(a + b == a);
    } else {
        lemma_run_concat(progress, a, b.drop_last());
        assert((a + b).drop_last() == a + b.drop_last());
        assert((a + b).last() == b.last());
    }
}

/// Runs the reading over `tokens` and hands out the slots it filled.
pub(crate) fn read_tokens(tokens: &Vec<Token>) -> (r: Result<Vec<Option<String>>, ParseError>)
    ensures
        match r {
            Ok(slots) => slots.len() == FIELD_COUNT && slots_of_tokens(lexemes(tokens@)) == Ok::<
                Seq<Option<Seq<char>>>,
                ParseError,
            >(slot_views(slots@)),
            Err(error) => slots_of_tokens(lexemes(tokens@)) == Err::<
                Seq<Option<Seq<char>>>,
                ParseError,
            >(error),
        },
{
    let ghost all = lexemes(tokens@);
    let mut reading = Reading::start();
    let mut i: usize = 0;
    assert(all.take(0) == Seq::<Lexeme>::empty());
    while i < tokens.len()
        invariant
            i <= tokens.len(),
            all == lexemes(tokens@),
            reading.well_formed(),
            reading.depth <= i,
            reading.progress() == run(Progress::Prolog, all.take(i as int)),
        decreases tokens.len() - i,
    {
        proof {
            assert(all.take(i + 1).drop_last() == all.take(i as int));
            assert(all.take(i + 1).last() == tokens@[i as int]@);
            assert(all == all.take(i + 1) + all.skip(i + 1));
            lemma_run_concat(Progress::Prolog, all.take(i + 1), all.skip(i + 1));
        }
        match reading.feed(&tokens[i]) {
            Ok(next) => {
                reading = next;
            },
            Err(error) => {
                proof {
                    lemma_failed_stays(error, all.skip(i + 1));
                }
                return Err(error);
            },
        }
        i = i + 1;
    }
    assert(all.take(i as int) == all);
    match reading.phase {
        Phase::Done => Ok(reading.slots),
        _ => Err(ParseError::Malformed),
    }
}

impl ComicInfo {
    /// Reads a document from its tokens.
    pub fn from_tokens(tokens: &Vec<Token>) -> (r: Result<ComicInfo, ParseError>)
        ensures
            match r {
                Ok(info) => decoded(lexemes(tokens@)) == Ok::<Document, ParseError>(info@),
                Err(error) => decoded(lexemes(tokens@)) == Err::<Document, ParseError>(error),
            },
    {
        match read_tokens(tokens) {
            Ok(slots) => read_slots(&slots),
            Err(error) => Err(error),
        }
    }

    /// Reads a document from its XML text. The root element has to be
    /// `ComicInfo`; its children are matched to the fields by their tags, a
    /// child that is no field is passed over, and the text of a numeric or
    /// enumerated field has to be a value of that field exactly.
    pub fn from_xml(xml: &str) -> (r: Result<ComicInfo, ParseError>)
        ensures
            match r {
                Ok(info) => parsed(xml@) == Ok::<Document, ParseError>(info@),
                Err(error) => parsed(xml@) == Err::<Document, ParseError>(error),
            },
    {
        match tokenize(xml) {
            Some(tokens) => ComicInfo::from_tokens(&tokens),
            None => Err(ParseError::Malformed),
        }
    }

    /// The tokens that the document is written as.
    pub fn tokens(&self) -> (tokens: Vec<Token>)
        ensures
            lexemes(tokens@) == document_tokens(self@.slots()),
    {
        let slots = self.to_slots();
        let ghost views = slot_views(slots@);
        let mut inner: Vec<Token> = Vec::new();
        let mut k: usize = 0;
        assert(lexemes(inner@) =~= inner_tokens(views, 0));
        while k < FIELD_COUNT
            invariant
                k <= FIELD_COUNT,
                slots.len() == FIELD_COUNT,
                views == slot_views(slots@),
                lexemes(inner@) == inner_tokens(views, k as int),
            decreases FIELD_COUNT - k,
        {
            let ghost before = lexemes(inner@);
            assert(views[k as int] == text_view(slots@[k as int]));
            match &slots[k] {
                None => {
                    assert(before + field_tokens(k as int, views[k as int]) =~= before);
                },
                Some(text) => {
                    if text.as_str().is_empty() {
                        inner.push(Token::Leaf(field_tag(k).to_owned()));
                        assert(lexemes(inner@) =~= before + field_tokens(k as int, views[k as int]));
                    } else {
                        inner.push(Token::Open(field_tag(k).to_owned()));
                        inner.push(Token::Text(text.clone()));
                        inner.push(Token::Close(field_tag(k).to_owned()));
                        assert(lexemes(inner@) =~= before + field_tokens(k as int, views[k as int]));
                    }
                },
            }
            k = k + 1;
        }
        let ghost body = lexemes(inner@);
        let mut tokens: Vec<Token> = Vec::new();
        if inner.len() == 0 {
            tokens.push(Token::Leaf("ComicInfo".to_owned()));
            assert(lexemes(tokens@) =~= seq![Lexeme::Leaf(root_tag())]);
        } else {
            tokens.push(Token::Open("ComicInfo".to_owned()));
            tokens.append(&mut inner);
            tokens.push(Token::Close("ComicInfo".to_owned()));
            assert(lexemes(tokens@) =~= seq![Lexeme::Open(root_tag())] + body + seq![
                Lexeme::Close(root_tag()),
            ]);
        }
        tokens
    }

    /// Writes the document as XML text: the declaration, a line break, and
    /// the root element with one child for each field that is present.
    ///
    /// The text is read back before it is handed out, so a text that comes
    /// out of here is read by `from_xml` as this very document. Writing fails
    /// where the community rating is no real number, and where the XML layer
    /// does not read the text back as it was written.
    pub fn to_xml(&self) -> (r: Result<String, EncodeError>)
        ensures
            match r {
                Ok(text) => {
                    &&& self@.valid()
                    &&& text@ == encoded(self@)
                    &&& reads_back(self@)
                    &&& parsed(text@) == Ok::<Document, ParseError>(self@)
                },
                Err(EncodeError::InvalidRating) => !self@.valid(),
                Err(EncodeError::NotReadBack) => self@.valid() && !reads_back(self@),
            },
    {
        match &self.community_rating {
            Some(rating) => {
                if !is_real_text(rating.as_str()) {
                    return Err(EncodeError::InvalidRating);
                }
            },
            None => {},
        }
        let tokens = self.tokens();
        let body = render(&tokens);
        let mut text = "<?xml version=\"1.0\" encoding=\"utf-8\"?>\n".to_owned();
        text.append(body.as_str());
        let read = match tokenize(text.as_str()) {
            Some(read) => read,
            None => {
                return Err(EncodeError::NotReadBack);
            },
        };
        if !reads_as(&read, &tokens) {
            return Err(EncodeError::NotReadBack);
        }
        proof {
            lemma_written_tokens_are_read(self@);
        }
        Ok(text)
    }
}

/// Whether `read` is the two tokens of the declaration line and after them
/// `tokens`.
fn reads_as(read: &Vec<Token>, tokens: &Vec<Token>) -> (r: bool)
    ensures
        r == (lexemes(read@) == prolog_tokens() + lexemes(tokens@)),
{
    let ghost want = prolog_tokens() + lexemes(tokens@);
    let ghost have = lexemes(read@);
    assert(prolog_tokens().len() == 2);
    assert(want.len() == tokens.len() + 2);
    assert(have.len() == read.len());
    if tokens.len() > usize::MAX - 2 || read.len() != tokens.len() + 2 {
        return false;
    }
    match &read[0] {
        Token::Other => {},
        _ => {
            assert(have[0] != want[0]);
            return false;
        },
    }
    if !same_token(&read[1], &Token::Text("\n".to_owned())) {
        assert(have[1] != want[1]);
        return false;
    }
    let mut i: usize = 0;
    while i < tokens.len()
        invariant
            i <= tokens.len(),
            read.len() == tokens.len() + 2,
            want == prolog_tokens() + lexemes(tokens@),
            have == lexemes(read@),
            have[0] == want[0],
            have[1] == want[1],
            forall|j: int| 2 <= j < i + 2 ==> have[j] == want[j],
        decreases tokens.len() - i,
    {
        if !same_token(&read[i + 2], &tokens[i]) {
            assert(have[i + 2] != want[i + 2]);
            return false;
        }
        i = i + 1;
    }
    assert(have =~= want);
    true
}

// What holds of writing and reading together.

/// Each field is found by its own tag.
pub proof fn lemma_field_of_own_tag(k: int)
    requires
        0 <= k < FIELD_COUNT,
    ensures
        field_of_tag(tag(k)) == Some(k),
{
    lemma_field_search(k, 0);
}

/// The search for the tag of field `k`, started at or before `k`, ends at
/// `k`.
proof fn lemma_field_search(k: int, from: int)
    requires
        0 <= from <= k < FIELD_COUNT,
    ensures
        field_of_tag_from(tag(k), from) == Some(k),
    decreases k - from,
{
    if from < k {
        lemma_tags_distinct(from, k);
        lemma_field_search(k, from + 1);
    }
}

/// The first `k` slots of a row, with the rest left empty.
pub open spec fn filled(slots: Seq<Option<Seq<char>>>, k: int) -> Seq<Option<Seq<char>>> {
    Seq::new(
        FIELD_COUNT as nat,
        |j: int|
            if j < k {
                slots[j]
            } else {
                None
            },
    )
}

/// Inside the root, the tokens of the first `k` fields fill the first `k`
/// slots.
proof fn lemma_inner_fills(slots: Seq<Option<Seq<char>>>, k: int)
    requires
        slots.len() == FIELD_COUNT,
        0 <= k <= FIELD_COUNT,
    ensures
        run(Progress::Root { slots: empty_slots() }, inner_tokens(slots, k)) == (Progress::Root {
            slots: filled(slots, k),
        }),
    decreases k,
{
    let start = Progress::Root { slots: empty_slots() };
    if k == 0 {
        assert(filled(slots, 0) =~= empty_slots());
    } else {
        lemma_inner_fills(slots, k - 1);
        let before = filled(slots, k - 1);
        let here = Progress::Root { slots: before };
        let tokens = field_tokens(k - 1, slots[k - 1]);
        lemma_run_concat(start, inner_tokens(slots, k - 1), tokens);
        lemma_field_of_own_tag(k - 1);
        let none = Seq::<Lexeme>::empty();
        match slots[k - 1] {
            None => {
                assert(filled(slots, k) =~= before);
            },
            Some(text) => {
                assert(filled(slots, k) =~= before.update(k - 1, Some(text)));
                if text.len() == 0 {
                    let leaf = Lexeme::Leaf(tag(k - 1));
                    assert(tokens == none.push(leaf));
                    assert(run(here, none) == here);
                    lemma_run_push(here, none, leaf);
                    assert(text == Seq::<char>::empty());
                } else {
                    let a = Lexeme::Open(tag(k - 1));
                    let b = Lexeme::Text(text);
                    let c = Lexeme::Close(tag(k - 1));
                    assert(tokens == none.push(a).push(b).push(c));
                    assert(run(here, none) == here);
                    lemma_run_push(here, none, a);
                    lemma_run_push(here, none.push(a), b);
                    lemma_run_push(here, none.push(a).push(b), c);
                    assert(run(here, tokens) == step(step(step(here, a), b), c));
                    assert(Seq::<char>::empty() + text == text);
                }
            },
        }
    }
}

/// Where no field is written, no field is present.
proof fn lemma_no_tokens_no_fields(slots: Seq<Option<Seq<char>>>, k: int)
    requires
        slots.len() == FIELD_COUNT,
        0 <= k <= FIELD_COUNT,
        inner_tokens(slots, k).len() == 0,
    ensures
        filled(slots, k) == empty_slots(),
    decreases k,
{
    if k > 0 {
        lemma_no_tokens_no_fields(slots, k - 1);
        assert(filled(slots, k) =~= filled(slots, k - 1));
    } else {
        assert(filled(slots, k) =~= empty_slots());
    }
}

/// Reading the tokens that a row of slots is written as fills the same
/// slots.
pub proof fn lemma_tokens_round_trip(slots: Seq<Option<Seq<char>>>)
    requires
        slots.len() == FIELD_COUNT,
    ensures
        slots_of_tokens(document_tokens(slots)) == Ok::<Seq<Option<Seq<char>>>, ParseError>(slots),
{
    let inner = inner_tokens(slots, FIELD_COUNT as int);
    let none = Seq::<Lexeme>::empty();
    assert(filled(slots, FIELD_COUNT as int) =~= slots);
    if inner.len() == 0 {
        lemma_no_tokens_no_fields(slots, FIELD_COUNT as int);
        let leaf = Lexeme::Leaf(root_tag());
        assert(document_tokens(slots) == none.push(leaf));
        assert(run(Progress::Prolog, none) == Progress::Prolog);
        lemma_run_push(Progress::Prolog, none, leaf);
    } else {
        let open = Lexeme::Open(root_tag());
        let close = Lexeme::Close(root_tag());
        lemma_inner_fills(slots, FIELD_COUNT as int);
        assert(run(Progress::Prolog, none) == Progress::Prolog);
        lemma_run_push(Progress::Prolog, none, open);
        lemma_run_concat(Progress::Prolog, none.push(open), inner);
        assert(document_tokens(slots) == (none.push(open) + inner).push(close));
        lemma_run_push(Progress::Prolog, none.push(open) + inner, close);
    }
}

/// Writing a valid document as tokens and reading the tokens gives the
/// document back, field for field.
pub proof fn lemma_document_round_trip(d: Document)
    requires
        d.valid(),
    ensures
        decoded(document_tokens(d.slots())) == Ok::<Document, ParseError>(d),
{
    lemma_tokens_round_trip(d.slots());
    lemma_slots_round_trip(d);
}

/// The element that a token names, if it is a tag.
pub open spec fn token_name(token: Lexeme) -> Option<Seq<char>> {
    match token {
        Lexeme::Open(name) => Some(name),
        Lexeme::Close(name) => Some(name),
        Lexeme::Leaf(name) => Some(name),
        _ => None,
    }
}

/// Among the tokens of the first `k` fields none names an absent field.
proof fn lemma_absent_in_inner(slots: Seq<Option<Seq<char>>>, k: int, absent: int, i: int)
    requires
        slots.len() == FIELD_COUNT,
        0 <= k <= FIELD_COUNT,
        0 <= absent < FIELD_COUNT,
        slots[absent] is None,
        0 <= i < inner_tokens(slots, k).len(),
    ensures
        token_name(inner_tokens(slots, k)[i]) != Some(tag(absent)),
    decreases k,
{
    if k > 0 {
        let head = inner_tokens(slots, k - 1);
        if i < head.len() {
            lemma_absent_in_inner(slots, k - 1, absent, i);
        } else {
            if k - 1 < absent {
                lemma_tags_distinct(k - 1, absent);
            } else if absent < k - 1 {
                lemma_tags_distinct(absent, k - 1);
            }
        }
    }
}

/// A document is written without any tag for a field that is absent.
pub proof fn lemma_absent_field_is_not_written(d: Document, absent: int, i: int)
    requires
        0 <= absent < FIELD_COUNT,
        d.slot(absent) is None,
        0 <= i < document_tokens(d.slots()).len(),
    ensures
        token_name(document_tokens(d.slots())[i]) != Some(tag(absent)),
{
    let slots = d.slots();
    let inner = inner_tokens(slots, FIELD_COUNT as int);
    lemma_root_is_no_field(absent);
    if inner.len() > 0 && 0 < i <= inner.len() {
        lemma_absent_in_inner(slots, FIELD_COUNT as int, absent, i - 1);
    }
}

/// A token that stands before the root element: text or a declaration.
pub open spec fn is_prolog_token(token: Lexeme) -> bool {
    token is Text || token is Other
}

/// Before the root element the reading stays where it is.
proof fn lemma_prolog_stays(tokens: Seq<Lexeme>)
    requires
        forall|j: int| 0 <= j < tokens.len() ==> is_prolog_token(#[trigger] tokens[j]),
    ensures
        run(Progress::Prolog, tokens) == Progress::Prolog,
    decreases tokens.len(),
{
    if tokens.len() > 0 {
        lemma_prolog_stays(tokens.drop_last());
    }
}

/// A text whose first element is not called `ComicInfo` is refused, whatever
/// follows.
pub proof fn lemma_foreign_root_is_refused(tokens: Seq<Lexeme>, i: int)
    requires
        0 <= i < tokens.len(),
        forall|j: int| 0 <= j < i ==> is_prolog_token(#[trigger] tokens[j]),
        tokens[i] is Open || tokens[i] is Leaf,
        token_name(tokens[i]) != Some(root_tag()),
    ensures
        decoded(tokens) == Err::<Document, ParseError>(ParseError::UnexpectedRoot),
{
    let head = tokens.take(i);
    lemma_prolog_stays(head);
    assert(tokens.take(i + 1).drop_last() == head);
    assert(tokens.take(i + 1).last() == tokens[i]);
    assert(tokens == tokens.take(i + 1) + tokens.skip(i + 1));
    lemma_run_concat(Progress::Prolog, tokens.take(i + 1), tokens.skip(i + 1));
    lemma_failed_stays(ParseError::UnexpectedRoot, tokens.skip(i + 1));
}

/// A text in which an enumerated field holds anything but one of its labels
/// is refused.
pub proof fn lemma_unknown_label_fails(tokens: Seq<Lexeme>, k: int)
    requires
        0 <= k < FIELD_COUNT,
        slots_of_tokens(tokens) matches Ok(slots) && slots[k] matches Some(text) && match kind(k) {
            FieldKind::YesNo => YesNo::of_text(text) is None,
            FieldKind::Manga => Manga::of_text(text) is None,
            FieldKind::AgeRating => AgeRating::of_text(text) is None,
            _ => false,
        },
    ensures
        decoded(tokens) is Err,
{
    lemma_unknown_label_is_refused(slots_of_tokens(tokens)->Ok_0, k);
}

/// What stands before the root element makes no difference to what is
/// read.
proof fn lemma_prolog_is_passed_over(prolog: Seq<Lexeme>, tokens: Seq<Lexeme>)
    requires
        forall|j: int| 0 <= j < prolog.len() ==> is_prolog_token(#[trigger] prolog[j]),
    ensures
        decoded(prolog + tokens) == decoded(tokens),
{
    lemma_prolog_stays(prolog);
    lemma_run_concat(Progress::Prolog, prolog, tokens);
}

/// A valid document whose text is read back as its tokens is read back as
/// the document.
proof fn lemma_written_tokens_are_read(d: Document)
    requires
        d.valid(),
        reads_back(d),
    ensures
        parsed(encoded(d)) == Ok::<Document, ParseError>(d),
{
    lemma_prolog_is_passed_over(prolog_tokens(), document_tokens(d.slots()));
    lemma_document_round_trip(d);
}

} // verus!
