//! XML at the level of tokens. Lexing is the work of `quick-xml`, reached
//! through the trusted items below; what the tokens mean is decided by the
//! verified code that consumes them.

use vstd::prelude::*;
use quick_xml::events::Event;
use crate::text::{push_char, same_text};

verus! {

/// One lexical unit of an XML text.
#[derive(Debug, Clone, PartialEq, Eq)]
pub enum Token {
    /// A start tag, with the element's name.
    Open(String),
    /// An end tag, with the element's name.
    Close(String),
    /// A self-closing tag, with the element's name.
    Leaf(String),
    /// Character data, with entity references already resolved.
    Text(String),
    /// A comment, a declaration, a processing instruction or a document type.
    Other,
}

/// The mathematical form of a `Token`.
pub enum Lexeme {
    /// A start tag.
    Open(Seq<char>),
    /// An end tag.
    Close(Seq<char>),
    /// A self-closing tag.
    Leaf(Seq<char>),
    /// Character data.
    Text(Seq<char>),
    /// A comment, a declaration, a processing instruction or a document type.
    Other,
}

impl View for Token {
    type V = Lexeme;

    open spec fn view(&self) -> Lexeme {
        match self {
            Token::Open(name) => Lexeme::Open(name@),
            Token::Close(name) => Lexeme::Close(name@),
            Token::Leaf(name) => Lexeme::Leaf(name@),
            Token::Text(text) => Lexeme::Text(text@),
            Token::Other => Lexeme::Other,
        }
    }
}

/// The views of a list of tokens.
pub open spec fn lexemes(tokens: Seq<Token>) -> Seq<Lexeme> {
    tokens.map_values(|t: Token| t@)
}

/// One character of text as it is written: `<`, `>` and `&` by their
/// entities, anything else as it is.
pub open spec fn escape_char(c: char) -> Seq<char> {
    if c == '<' {
        "&lt;"@
    } else if c == '>' {
        "&gt;"@
    } else if c == '&' {
        "&amp;"@
    } else {
        seq![c]
    }
}

/// Text as it is written between two tags.
pub open spec fn escaped(text: Seq<char>) -> Seq<char>
    decreases text.len(),
{
    if text.len() == 0 {
        Seq::empty()
    } else {
        escaped(text.drop_last()) + escape_char(text.last())
    }
}

/// One token as text.
pub open spec fn token_text(token: Lexeme) -> Seq<char> {
    match token {
        Lexeme::Open(name) => seq!['<'] + name + seq!['>'],
        Lexeme::Close(name) => seq!['<', '/'] + name + seq!['>'],
        Lexeme::Leaf(name) => seq!['<'] + name + seq!['/', '>'],
        Lexeme::Text(text) => escaped(text),
        Lexeme::Other => Seq::empty(),
    }
}

/// A run of tokens as text.
pub open spec fn rendered(tokens: Seq<Lexeme>) -> Seq<char>
    decreases tokens.len(),
{
    if tokens.len() == 0 {
        Seq::empty()
    } else {
        rendered(tokens.drop_last()) + token_text(tokens.last())
    }
}

#[verifier::external_type_specification]
#[verifier::external_body]
#[verifier::reject_recursive_types(R)]
pub struct ExReader<R>(quick_xml::Reader<R>);

#[verifier::external_type_specification]
#[verifier::external_body]
pub struct ExXmlError(quick_xml::Error);

/// How `quick-xml` lexes `text`: the tokens it yields, one after the other,
/// before it reports the end of the input or a fault, and whether what it
/// then reports is the end.
pub uninterp spec fn xml_lexing(text: Seq<char>) -> (Seq<Lexeme>, bool);

/// What a reader has yet to yield from where it stands, in the form of
/// `xml_lexing`.
pub uninterp spec fn reader_rest(reader: quick_xml::Reader<&[u8]>) -> (Seq<Lexeme>, bool);

/// A reader at the start of `text`.
///
/// Trusted: `quick_xml::Reader::from_str`, with the reader's default
/// configuration: no trimming of text, end names checked against start names.
#[verifier::external_body]
pub(crate) fn open_reader(text: &str) -> (reader: quick_xml::Reader<&[u8]>)
    ensures
        reader_rest(reader) == xml_lexing(text@),
{
    quick_xml::Reader::from_str(text)
}

/// Takes the next token from the reader: `Ok(None)` at the end of the input,
/// an error at a fault.
///
/// Trusted: `Reader::read_event`, one arm for each kind of event. A name is
/// the tag's qualified name; text is passed through `BytesText::unescape`,
/// whose failure counts as a fault; a CDATA section is text as it stands.
#[verifier::external_body]
pub(crate) fn next_token(reader: &mut quick_xml::Reader<&[u8]>) -> (r: Result<
    Option<Token>,
    quick_xml::Error,
>)
    ensures
        match r {
            Ok(Some(token)) => reader_rest(*old(reader)).0.len() > 0 && token@ == reader_rest(
                *old(reader),
            ).0[0] && reader_rest(*final(reader)) == (
                reader_rest(*old(reader)).0.drop_first(),
                reader_rest(*old(reader)).1,
            ),
            Ok(None) => reader_rest(*old(reader)).0.len() == 0 && reader_rest(*old(reader)).1,
            Err(_) => reader_rest(*old(reader)).0.len() == 0 && !reader_rest(*old(reader)).1,
        },
{
    Ok(match reader.read_event()? {
        Event::Start(e) => Some(Token::Open(String::from_utf8_lossy(e.name().0).into_owned())),
        Event::End(e) => Some(Token::Close(String::from_utf8_lossy(e.name().0).into_owned())),
        Event::Empty(e) => Some(Token::Leaf(String::from_utf8_lossy(e.name().0).into_owned())),
        Event::Text(e) => Some(Token::Text(e.unescape()?.into_owned())),
        Event::CData(e) => Some(Token::Text(String::from_utf8_lossy(&e).into_owned())),
        Event::Eof => None,
        _ => Some(Token::Other),
    })
}

/// Text as it is written between two tags.
///
/// Trusted: `quick_xml::escape::partial_escape`, which replaces `<`, `>` and
/// `&` by `&lt;`, `&gt;` and `&amp;` and leaves every other character as it
/// is.
#[verifier::external_body]
pub(crate) fn escape_text(text: &str) -> (r: String)
    ensures
        r@ == escaped(text@),
{
    quick_xml::escape::partial_escape(text).into_owned()
}

/// The tokens of `text`, or `None` where `text` is not well-formed.
pub fn tokenize(text: &str) -> (r: Option<Vec<Token>>)
    ensures
        match r {
            Some(tokens) => xml_lexing(text@).1 && lexemes(tokens@) == xml_lexing(text@).0,
            None => !xml_lexing(text@).1,
        },
{
    let mut reader = open_reader(text);
    let mut tokens: Vec<Token> = Vec::new();
    loop
        invariant
            xml_lexing(text@).0 == lexemes(tokens@) + reader_rest(reader).0,
            xml_lexing(text@).1 == reader_rest(reader).1,
        decreases reader_rest(reader).0.len(),
    {
        let ghost before = lexemes(tokens@);
        match next_token(&mut reader) {
            Ok(Some(token)) => {
                tokens.push(token);
                assert(lexemes(tokens@) == before.push(token@));
            },
            Ok(None) => {
                return Some(tokens);
            },
            Err(_) => {
                return None;
            },
        }
    }
}

/// Rendering goes token by token.
pub proof fn lemma_rendered_push(tokens: Seq<Lexeme>, token: Lexeme)
    ensures
        rendered(tokens.push(token)) == rendered(tokens) + token_text(token),
{
    assert(tokens.push(token).drop_last() == tokens);
}

/// Appends the text of one token to `out`.
fn render_token(out: &mut String, token: &Token)
    ensures
        final(out)@ == old(out)@ + token_text(token@),
{
    match token {
        Token::Open(name) => {
            push_char(out, '<');
            out.append(name.as_str());
            push_char(out, '>');
        },
        Token::Close(name) => {
            push_char(out, '<');
            push_char(out, '/');
            out.append(name.as_str());
            push_char(out, '>');
        },
        Token::Leaf(name) => {
            push_char(out, '<');
            out.append(name.as_str());
            push_char(out, '/');
            push_char(out, '>');
        },
        Token::Text(text) => {
            let body = escape_text(text.as_str());
            out.append(body.as_str());
        },
        Token::Other => {},
    }
    assert(final(out)@ =~= old(out)@ + token_text(token@));
}

/// The text of a run of tokens.
pub fn render(tokens: &Vec<Token>) -> (out: String)
    ensures
        out@ == rendered(lexemes(tokens@)),
{
    let ghost all = lexemes(tokens@);
    let mut out = String::new();
    let mut i: usize = 0;
    assert(all.take(0) == Seq::<Lexeme>::empty());
    while i < tokens.len()
        invariant
            i <= tokens.len(),
            all == lexemes(tokens@),
            out@ == rendered(all.take(i as int)),
        decreases tokens.len() - i,
    {
        proof {
            lemma_rendered_push(all.take(i as int), tokens@[i as int]@);
            assert(all.take(i + 1) == all.take(i as int).push(tokens@[i as int]@));
        }
        render_token(&mut out, &tokens[i]);
        i = i + 1;
    }
    assert(all.take(i as int) == all);
    out
}

/// Whether two tokens are the same.
pub fn same_token(a: &Token, b: &Token) -> (r: bool)
    ensures
        r == (a@ == b@),
{
    match (a, b) {
        (Token::Open(x), Token::Open(y)) => same_text(x.as_str(), y.as_str()),
        (Token::Close(x), Token::Close(y)) => same_text(x.as_str(), y.as_str()),
        (Token::Leaf(x), Token::Leaf(y)) => same_text(x.as_str(), y.as_str()),
        (Token::Text(x), Token::Text(y)) => same_text(x.as_str(), y.as_str()),
        (Token::Other, Token::Other) => true,
        _ => false,
    }
}

} // verus!
