//! Character-level helpers shared by the rest of the crate: moving between
//! strings and character vectors, ASCII case folding, and sequence tests.

use vstd::prelude::*;

verus! {

/// The ASCII lower-case form of `c`; every other character is itself.
pub open spec fn lower(c: char) -> char {
    if 'A' <= c && c <= 'Z' {
        ((c as u32 + 32) as u8) as char
    } else {
        c
    }
}

/// `s` with every ASCII capital folded to its small letter.
pub open spec fn lowered(s: Seq<char>) -> Seq<char> {
    s.map_values(|c: char| lower(c))
}

/// Whether `s` ends with `suffix`.
pub open spec fn ends_with(s: Seq<char>, suffix: Seq<char>) -> bool {
    suffix.len() <= s.len() && s.subrange(s.len() - suffix.len(), s.len() as int) == suffix
}

/// Folds one character to ASCII lower case.
pub fn to_lower(c: char) -> (r: char)
    ensures
        r == lower(c),
{
    if 'A' <= c && c <= 'Z' {
        let code: u8 = c as u8;
        (code + 32) as char
    } else {
        c
    }
}

/// The characters of `s`, in order.
pub fn chars_of(s: &str) -> (v: Vec<char>)
    ensures
        v@ == s@,
{
    let mut v: Vec<char> = Vec::new();
    for c in it: s.chars()
        invariant
            v@ == it.seq().take(it.index()),
            it.seq() == s@,
    {
        v.push(c);
    }
    v
}

/// Appends one character to a string.
///
/// Trusted: wraps `String::push`, which std documents as appending the given
/// character to the end of the string.
#[verifier::external_body]
pub(crate) fn push_char(s: &mut String, c: char)
    ensures
        final(s)@ == old(s)@.push(c),
{
    s.push(c)
}

/// Whether two strings hold the same characters.
pub fn same_text(a: &str, b: &str) -> (r: bool)
    ensures
        r == (a@ == b@),
{
    let x = chars_of(a);
    let y = chars_of(b);
    if x.len() != y.len() {
        return false;
    }
    let mut i: usize = 0;
    while i < x.len()
        invariant
            x.len() == y.len(),
            x@ == a@,
            y@ == b@,
            i <= x.len(),
            x@.take(i as int) == y@.take(i as int),
        decreases x.len() - i,
    {
        if x[i] != y[i] {
            assert(a@[i as int] != b@[i as int]);
            return false;
        }
        assert(x@.take(i + 1) == x@.take(i as int).push(x@[i as int]));
        assert(y@.take(i + 1) == y@.take(i as int).push(y@[i as int]));
        i = i + 1;
    }
    assert(x@.take(i as int) == x@);
    assert(y@.take(i as int) == y@);
    true
}

/// Whether `chars[from..to]`, folded to ASCII lower case, is `word`.
pub fn folds_to(chars: &Vec<char>, from: usize, to: usize, word: &str) -> (r: bool)
    requires
        from <= to <= chars.len(),
    ensures
        r == (lowered(chars@.subrange(from as int, to as int)) == word@),
{
    let w = chars_of(word);
    let ghost part = chars@.subrange(from as int, to as int);
    if w.len() != to - from {
        return false;
    }
    let mut i: usize = 0;
    while i < w.len()
        invariant
            from <= to <= chars.len(),
            w.len() == to - from,
            w@ == word@,
            i <= w.len(),
            part == chars@.subrange(from as int, to as int),
            lowered(part).take(i as int) == w@.take(i as int),
        decreases w.len() - i,
    {
        if to_lower(chars[from + i]) != w[i] {
            assert(lowered(part)[i as int] != w@[i as int]);
            return false;
        }
        assert(lowered(part).take(i + 1) == lowered(part).take(i as int).push(
            lowered(part)[i as int],
        ));
        assert(w@.take(i + 1) == w@.take(i as int).push(w@[i as int]));
        i = i + 1;
    }
    assert(lowered(part).take(i as int) == lowered(part));
    assert(w@.take(i as int) == w@);
    true
}

/// Whether `chars`, folded to ASCII lower case, ends with `suffix`.
pub fn folded_ends_with(chars: &Vec<char>, suffix: &str) -> (r: bool)
    ensures
        r == ends_with(lowered(chars@), suffix@),
{
    let n = suffix.unicode_len();
    if n > chars.len() {
        return false;
    }
    let from: usize = chars.len() - n;
    let r = folds_to(chars, from, chars.len(), suffix);
    assert(lowered(chars@.subrange(from as int, chars.len() as int)) == lowered(chars@).subrange(
        from as int,
        chars.len() as int,
    ));
    r
}

/// The text that `bytes` hold in UTF-8, or `None` where they are not UTF-8.
///
/// Trusted: `String::from_utf8`, which std documents to succeed exactly on
/// valid UTF-8 and then to hold the text that the bytes encode.
#[verifier::external_body]
pub(crate) fn text_of_bytes(bytes: Vec<u8>) -> (r: Option<String>)
    ensures
        match r {
            Some(text) => vstd::utf8::valid_utf8(bytes@) && text@ == vstd::utf8::decode_utf8(
                bytes@,
            ),
            None => !vstd::utf8::valid_utf8(bytes@),
        },
{
    String::from_utf8(bytes).ok()
}

} // verus!
