//! Numbers as decimal text: whole numbers are printed and parsed here, and
//! the text of a real number is checked against the grammar of a decimal
//! literal.

use vstd::prelude::*;
use crate::text::{chars_of, folds_to, lowered, push_char};

verus! {

/// Whether `c` is one of `0` to `9`.
pub open spec fn is_digit(c: char) -> bool {
    '0' <= c && c <= '9'
}

/// The digit that `c` stands for.
pub open spec fn digit_value(c: char) -> nat {
    (c as u32 - '0' as u32) as nat
}

/// The character for a digit.
pub open spec fn digit_char(d: nat) -> char {
    ((d + 48) as u8) as char
}

/// The number that a run of digits stands for; the empty run stands for 0,
/// and a run that holds anything but digits stands for nothing.
pub open spec fn digits_value(s: Seq<char>) -> Option<nat>
    decreases s.len(),
{
    if s.len() == 0 {
        Some(0)
    } else {
        match digits_value(s.drop_last()) {
            Some(v) => if is_digit(s.last()) {
                Some(v * 10 + digit_value(s.last()))
            } else {
                None
            },
            None => None,
        }
    }
}

/// The whole number that `s` stands for: an optional sign, then one digit or
/// more.
pub open spec fn parse_int(s: Seq<char>) -> Option<int> {
    if s.len() > 0 && (s[0] == '-' || s[0] == '+') {
        let body = s.skip(1);
        match digits_value(body) {
            Some(v) => if body.len() == 0 {
                None
            } else if s[0] == '-' {
                Some(-(v as int))
            } else {
                Some(v as int)
            },
            None => None,
        }
    } else {
        match digits_value(s) {
            Some(v) => if s.len() == 0 {
                None
            } else {
                Some(v as int)
            },
            None => None,
        }
    }
}

/// The 32-bit number that `s` stands for; a number out of range stands for
/// nothing.
pub open spec fn parse_i32(s: Seq<char>) -> Option<i32> {
    match parse_int(s) {
        Some(v) => if i32::MIN <= v <= i32::MAX {
            Some(v as i32)
        } else {
            None
        },
        None => None,
    }
}

/// The digits of `n`, without leading zeros.
pub open spec fn nat_digits(n: nat) -> Seq<char>
    decreases n,
{
    if n < 10 {
        seq![digit_char(n)]
    } else {
        nat_digits(n / 10).push(digit_char(n % 10))
    }
}

/// The decimal text of `n`: a minus sign where it is negative, then its
/// digits.
pub open spec fn decimal(n: int) -> Seq<char> {
    if n < 0 {
        seq!['-'] + nat_digits((-n) as nat)
    } else {
        nat_digits(n as nat)
    }
}

/// The digits of a number stand for that number.
pub proof fn lemma_digits_round_trip(n: nat)
    ensures
        digits_value(nat_digits(n)) == Some(n),
        nat_digits(n).len() > 0,
        nat_digits(n)[0] != '-',
        nat_digits(n)[0] != '+',
    decreases n,
{
    if n < 10 {
        let s = nat_digits(n);
        assert(s.drop_last() == Seq::<char>::empty());
        assert(digits_value(s.drop_last()) == Some(0nat));
        assert(s.last() == digit_char(n));
    } else {
        lemma_digits_round_trip(n / 10);
        let s = nat_digits(n);
        assert(s.drop_last() == nat_digits(n / 10));
        assert(s.last() == digit_char(n % 10));
        assert(s[0] == nat_digits(n / 10)[0]);
    }
}

/// Printing a whole number and parsing the text gives the number back.
pub proof fn lemma_decimal_round_trip(n: int)
    ensures
        parse_int(decimal(n)) == Some(n),
{
    if n < 0 {
        lemma_digits_round_trip((-n) as nat);
        let s = decimal(n);
        assert(s.skip(1) == nat_digits((-n) as nat));
    } else {
        lemma_digits_round_trip(n as nat);
    }
}

/// A run of digits stands for at least as much as each of its prefixes.
pub proof fn lemma_digits_prefix(s: Seq<char>, k: int)
    requires
        0 <= k <= s.len(),
        digits_value(s) is Some,
    ensures
        digits_value(s.take(k)) is Some,
        digits_value(s.take(k)).unwrap() <= digits_value(s).unwrap(),
    decreases s.len(),
{
    if k == s.len() {
        assert(s.take(k) == s);
    } else {
        lemma_digits_prefix(s.drop_last(), k);
        assert(s.drop_last().take(k) == s.take(k));
    }
}

/// Appends the digits of `n` to `out`.
fn push_digits(n: u64, out: &mut String)
    ensures
        final(out)@ == old(out)@ + nat_digits(n as nat),
    decreases n,
{
    if n >= 10 {
        push_digits(n / 10, out);
    }
    let d: u8 = (n % 10) as u8;
    push_char(out, (d + 48) as char);
    assert(final(out)@ =~= old(out)@ + nat_digits(n as nat));
}

/// The decimal text of `n`.
pub fn format_i32(n: i32) -> (s: String)
    ensures
        s@ == decimal(n as int),
{
    let mut s = String::new();
    let wide: i64 = n as i64;
    if wide < 0 {
        push_char(&mut s, '-');
        push_digits((-wide) as u64, &mut s);
    } else {
        push_digits(wide as u64, &mut s);
    }
    s
}

/// Parses the decimal text of a 32-bit number.
pub fn read_i32(text: &str) -> (r: Option<i32>)
    ensures
        r == parse_i32(text@),
{
    let chars = chars_of(text);
    let n = chars.len();
    let negative = n > 0 && chars[0] == '-';
    let start: usize = if n > 0 && (chars[0] == '-' || chars[0] == '+') {
        1
    } else {
        0
    };
    if start == n {
        proof {
            if start == 1 {
                assert(chars@.skip(1).len() == 0);
                assert(digits_value(chars@.skip(1)) == Some(0nat));
            }
        }
        return None;
    }
    let ghost body = chars@.skip(start as int);
    assert(body.take(0) == Seq::<char>::empty());
    let mut value: u64 = 0;
    let mut i: usize = start;
    while i < n
        invariant
            start <= i <= n,
            start < n,
            n == chars.len(),
            chars@ == text@,
            negative == (chars@[0] == '-'),
            start == if chars@[0] == '-' || chars@[0] == '+' { 1int } else { 0int },
            body == chars@.skip(start as int),
            digits_value(body.take(i - start)) == Some(value as nat),
            value <= 0x8000_0000,
        decreases n - i,
    {
        let c = chars[i];
        let ghost head = body.take(i + 1 - start);
        assert(head.drop_last() == body.take(i - start));
        assert(head.last() == c);
        if !('0' <= c && c <= '9') {
            proof {
                if digits_value(body) is Some {
                    lemma_digits_prefix(body, i + 1 - start);
                }
                assert(start == 0 ==> body == chars@);
            }
            return None;
        }
        let d: u64 = (c as u8 - 48) as u64;
        value = value * 10 + d;
        if value > 0x8000_0000 {
            proof {
                if digits_value(body) is Some {
                    lemma_digits_prefix(body, i + 1 - start);
                }
                assert(start == 0 ==> body == chars@);
            }
            return None;
        }
        i = i + 1;
    }
    assert(body.take(n - start) == body);
    assert(start == 0 ==> body == chars@);
    if negative {
        Some((-(value as i64)) as i32)
    } else if value == 0x8000_0000 {
        None
    } else {
        Some(value as i32)
    }
}

/// How many digits stand in a row from position `from` of `s`.
pub open spec fn digit_run(s: Seq<char>, from: int) -> int
    decreases s.len() - from,
{
    if 0 <= from < s.len() && is_digit(s[from]) {
        1 + digit_run(s, from + 1)
    } else {
        0
    }
}

/// An unsigned decimal number: digits with at most one point among them, at
/// least one digit in all, and after them, if anything, an exponent: `e` or
/// `E`, an optional sign, and one digit or more.
pub open spec fn is_number_body(s: Seq<char>) -> bool {
    let whole = digit_run(s, 0);
    let pointed = whole < s.len() && s[whole] == '.';
    let fraction = if pointed {
        digit_run(s, whole + 1)
    } else {
        0
    };
    let end = whole + if pointed {
        1 + fraction
    } else {
        0
    };
    whole + fraction >= 1 && (end == s.len() || {
        let signed = end + 1 < s.len() && (s[end + 1] == '+' || s[end + 1] == '-');
        let first = end + 1 + if signed {
            1int
        } else {
            0int
        };
        &&& end < s.len()
        &&& (s[end] == 'e' || s[end] == 'E')
        &&& digit_run(s, first) >= 1
        &&& first + digit_run(s, first) == s.len()
    })
}

/// The text of a real number: an optional sign, then a decimal number or one
/// of the words `inf`, `infinity` and `nan` in any mixture of ASCII case.
pub open spec fn is_real_literal(s: Seq<char>) -> bool {
    let body = if s.len() > 0 && (s[0] == '+' || s[0] == '-') {
        s.skip(1)
    } else {
        s
    };
    lowered(body) == "inf"@ || lowered(body) == "infinity"@ || lowered(body) == "nan"@
        || is_number_body(body)
}

/// Counts the digits that stand in a row from position `from`.
fn count_digits(chars: &Vec<char>, from: usize) -> (k: usize)
    requires
        from <= chars.len(),
    ensures
        k == digit_run(chars@, from as int),
        from + k <= chars.len(),
{
    let mut i: usize = from;
    while i < chars.len() && '0' <= chars[i] && chars[i] <= '9'
        invariant
            from <= i <= chars.len(),
            digit_run(chars@, from as int) == (i - from) + digit_run(chars@, i as int),
        decreases chars.len() - i,
    {
        i = i + 1;
    }
    i - from
}

/// Whether `text` is the text of a real number.
pub fn is_real_text(text: &str) -> (r: bool)
    ensures
        r == is_real_literal(text@),
{
    let all = chars_of(text);
    let start: usize = if all.len() > 0 && (all[0] == '+' || all[0] == '-') {
        1
    } else {
        0
    };
    let mut chars: Vec<char> = Vec::new();
    let mut j: usize = start;
    while j < all.len()
        invariant
            start <= j <= all.len(),
            chars@ == all@.subrange(start as int, j as int),
        decreases all.len() - j,
    {
        chars.push(all[j]);
        j = j + 1;
    }
    assert(chars@ == all@.skip(start as int));
    assert(start == 0 ==> chars@ == all@);
    let n = chars.len();
    assert(chars@.subrange(0, n as int) == chars@);
    if folds_to(&chars, 0, n, "inf") || folds_to(&chars, 0, n, "infinity") || folds_to(
        &chars,
        0,
        n,
        "nan",
    ) {
        return true;
    }
    let whole = count_digits(&chars, 0);
    let pointed = whole < n && chars[whole] == '.';
    let fraction: usize = if pointed {
        count_digits(&chars, whole + 1)
    } else {
        0
    };
    let end: usize = if pointed {
        whole + 1 + fraction
    } else {
        whole
    };
    if whole + fraction < 1 {
        return false;
    }
    if end == n {
        return true;
    }
    if !(chars[end] == 'e' || chars[end] == 'E') {
        return false;
    }
    let signed = end + 1 < n && (chars[end + 1] == '+' || chars[end + 1] == '-');
    let first: usize = if signed {
        end + 2
    } else {
        end + 1
    };
    let exponent = count_digits(&chars, first);
    exponent >= 1 && first + exponent == n
}

} // verus!
