//! Reading an inverse statement back from its text.
//!
//! The reader accepts exactly the texts that inverse statements are written
//! as, and gives back the statement that was written. Whatever a column
//! value holds, quotes and commas and brackets included, it comes back as
//! that one value and never as part of the statement around it.

use vstd::prelude::*;
use vstd::string::*;
use crate::schema::{is_identifier, is_identifier_char, TableSchema};
use crate::statement::{
    all_well_formed, assignments, quoted_all, render, InverseStatement, Statement, StatementKind,
};
use crate::text::{
    decimal, decimal_digits, digit_char, each_after, join, push_char, same_text, texts, to_chars,
};
use crate::value::{
    check_integer_numeral, digit_value, digits_end, digits_value, escaped, escaped_char,
    exponent_end, exponent_sign_end, fraction_end, integer_value, is_decimal, is_digit,
    lemma_digits_end_bounds, numeral_end, quote, quoted, scan_numeral, scan_numeral_digits,
    sign_end, values_view, Decimal, Scalar, SqlValue,
};

verus! {

/// Whether `part` stands in `s` at position `pos`.
spec fn starts_at(s: Seq<char>, pos: int, part: Seq<char>) -> bool {
    &&& 0 <= pos
    &&& pos + part.len() <= s.len()
    &&& s.subrange(pos, pos + part.len()) == part
}

/// The first position at or after `pos` that holds no identifier character.
spec fn identifier_end(s: Seq<char>, pos: int) -> int
    decreases s.len() - pos,
{
    if 0 <= pos < s.len() && is_identifier_char(s[pos]) {
        identifier_end(s, pos + 1)
    } else {
        pos
    }
}

/// The integer written at `pos`, an optional minus sign and digits, with the
/// position after it; none where no digit stands or the number does not fit
/// in 64 bits.
spec fn integer_at(s: Seq<char>, pos: int) -> Option<(int, int)> {
    let start = sign_end(s, pos);
    let end = digits_end(s, start);
    let magnitude = digits_value(s, start, end);
    let number = if start > pos {
        -magnitude
    } else {
        magnitude
    };
    if end > start && i64::MIN <= number <= i64::MAX {
        Some((number, end))
    } else {
        None
    }
}

/// The text written from `pos` on, up to a single quote that is not doubled,
/// with the position after that quote; none where the text never ends.
/// A doubled single quote stands for one single quote of the text.
spec fn text_at(s: Seq<char>, pos: int) -> Option<(Seq<char>, int)>
    decreases s.len() - pos,
{
    if pos < 0 || pos >= s.len() {
        None
    } else if s[pos] != '\'' {
        match text_at(s, pos + 1) {
            Some((rest, end)) => Some((seq![s[pos]] + rest, end)),
            None => None,
        }
    } else if pos + 1 < s.len() && s[pos + 1] == '\'' {
        match text_at(s, pos + 2) {
            Some((rest, end)) => Some((seq!['\''] + rest, end)),
            None => None,
        }
    } else {
        Some((Seq::empty(), pos + 1))
    }
}

/// The value written at `pos`, with the position after it.
spec fn value_at(s: Seq<char>, pos: int) -> Option<(Scalar, int)> {
    if starts_at(s, pos, "NULL"@) {
        Some((Scalar::Null, pos + 4))
    } else if 0 <= pos < s.len() && s[pos] == '\'' {
        match text_at(s, pos + 1) {
            Some((t, end)) => Some((Scalar::Text(t), end)),
            None => None,
        }
    } else if 0 <= pos && numeral_end(s, pos) > digits_end(s, sign_end(s, pos)) {
        if is_decimal(s.subrange(pos, numeral_end(s, pos))) {
            Some((Scalar::Real(s.subrange(pos, numeral_end(s, pos))), numeral_end(s, pos)))
        } else {
            None
        }
    } else {
        match integer_at(s, pos) {
            Some((i, end)) => Some((Scalar::Integer(i), end)),
            None => None,
        }
    }
}

/// Whether `part` stands in `chars` at position `pos`.
fn found_at(chars: &Vec<char>, pos: usize, part: &str) -> (found: bool)
    requires
        pos <= chars.len(),
    ensures
        found == starts_at(chars@, pos as int, part@),
{
    let wanted = to_chars(part);
    if wanted.len() > chars.len() - pos {
        return false;
    }
    let mut i: usize = 0;
    while i < wanted.len()
        invariant
            i <= wanted.len(),
            wanted@ == part@,
            pos + wanted.len() <= chars.len(),
            forall|k: int| 0 <= k < i ==> chars@[pos + k] == #[trigger] wanted@[k],
        decreases wanted.len() - i,
    {
        if chars[pos + i] != wanted[i] {
            assert(chars@.subrange(pos as int, pos + wanted.len())[i as int] != wanted@[i as int]);
            return false;
        }
        i += 1;
    }
    assert(chars@.subrange(pos as int, pos + wanted.len()) =~= wanted@);
    true
}

/// The first position at or after `pos` that holds no identifier character.
fn scan_identifier(chars: &Vec<char>, pos: usize) -> (end: usize)
    requires
        pos <= chars.len(),
    ensures
        end == identifier_end(chars@, pos as int),
        pos <= end <= chars.len(),
    decreases chars.len() - pos,
{
    if pos < chars.len() {
        let c = chars[pos];
        if ('a' <= c && c <= 'z') || ('A' <= c && c <= 'Z') || ('0' <= c && c <= '9') || c == '_' {
            return scan_identifier(chars, pos + 1);
        }
    }
    pos
}

/// The characters of `chars` from `from` up to `to`, as a string.
fn slice_text(chars: &Vec<char>, from: usize, to: usize) -> (text: String)
    requires
        from <= to <= chars.len(),
    ensures
        text@ == chars@.subrange(from as int, to as int),
{
    let mut text = String::new();
    let mut i: usize = from;
    while i < to
        invariant
            from <= i <= to,
            to <= chars.len(),
            text@ == chars@.subrange(from as int, i as int),
        decreases to - i,
    {
        push_char(&mut text, chars[i]);
        assert(chars@.subrange(from as int, i + 1) =~= chars@.subrange(from as int, i as int).push(
            chars@[i as int],
        ));
        i += 1;
    }
    text
}

fn value_of_digit(c: char) -> (d: u64)
    ensures
        d == digit_value(c),
        d <= 9,
{
    if c == '1' {
        1
    } else if c == '2' {
        2
    } else if c == '3' {
        3
    } else if c == '4' {
        4
    } else if c == '5' {
        5
    } else if c == '6' {
        6
    } else if c == '7' {
        7
    } else if c == '8' {
        8
    } else if c == '9' {
        9
    } else {
        0
    }
}

/// More digits never make a smaller number.
proof fn lemma_digits_value_grows(s: Seq<char>, from: int, mid: int, to: int)
    requires
        from <= mid <= to,
    ensures
        0 <= digits_value(s, from, mid) <= digits_value(s, from, to),
    decreases to - from,
{
    if from < to {
        if mid < to {
            lemma_digits_value_grows(s, from, mid, to - 1);
        } else {
            lemma_digits_value_grows(s, from, mid - 1, to - 1);
        }
    }
}

/// The integer written at `pos`, with the position after it.
fn scan_integer(chars: &Vec<char>, pos: usize) -> (found: Option<(i64, usize)>)
    requires
        pos <= chars.len(),
    ensures
        match found {
            Some((number, end)) => integer_at(chars@, pos as int) == Some(
                (number as int, end as int),
            ) && pos < end <= chars.len(),
            None => integer_at(chars@, pos as int) is None,
        },
{
    let negative = pos < chars.len() && chars[pos] == '-';
    let start: usize = if negative {
        pos + 1
    } else {
        pos
    };
    let end = scan_numeral_digits(chars, start);
    if end == start {
        return None;
    }
    let limit: u64 = 0x8000_0000_0000_0000;
    let mut magnitude: u64 = 0;
    let mut i: usize = start;
    while i < end
        invariant
            start <= i <= end,
            end <= chars.len(),
            end == digits_end(chars@, start as int),
            start == sign_end(chars@, pos as int),
            magnitude == digits_value(chars@, start as int, i as int),
            magnitude <= limit,
            limit == 0x8000_0000_0000_0000,
        decreases end - i,
    {
        let digit = value_of_digit(chars[i]);
        if magnitude > (limit - digit) / 10 {
            proof {
                let quotient = (limit - digit) / 10;
                assert(quotient * 10 + 10 > limit - digit);
                assert(magnitude * 10 + digit > limit);
                assert(digits_value(chars@, start as int, i + 1) == magnitude * 10 + digit);
                lemma_digits_value_grows(chars@, start as int, i + 1, end as int);
            }
            return None;
        }
        magnitude = magnitude * 10 + digit;
        i += 1;
    }
    if negative {
        if magnitude == limit {
            Some((i64::MIN, end))
        } else {
            let wide: i128 = magnitude as i128;
            Some(((-wide) as i64, end))
        }
    } else if magnitude == limit {
        None
    } else {
        Some((magnitude as i64, end))
    }
}

/// The integer that a text writes, if the whole text is an integer numeral
/// whose value fits in 64 bits.
pub fn parse_integer(text: &str) -> (parsed: Option<i64>)
    ensures
        match parsed {
            Some(i) => integer_value(text@) == Some(i as int),
            None => integer_value(text@) is None,
        },
{
    let chars = to_chars(text);
    if !check_integer_numeral(&chars) {
        return None;
    }
    match scan_integer(&chars, 0) {
        Some((number, _)) => Some(number),
        None => None,
    }
}

/// What a text read from some position on is, given the characters read
/// before that position.
spec fn after_prefix(read: Seq<char>, rest: Option<(Seq<char>, int)>) -> Option<
    (Seq<char>, int),
> {
    match rest {
        Some((t, end)) => Some((read + t, end)),
        None => None,
    }
}

/// The text written from `pos` on, with the position after the quote that
/// ends it.
fn scan_text(chars: &Vec<char>, pos: usize) -> (found: Option<(String, usize)>)
    requires
        pos <= chars.len(),
    ensures
        match found {
            Some((t, end)) => text_at(chars@, pos as int) == Some((t@, end as int)) && pos < end
                <= chars.len(),
            None => text_at(chars@, pos as int) is None,
        },
{
    let mut read = String::new();
    let mut i: usize = pos;
    assert(Seq::<char>::empty() + text_at(chars@, pos as int).unwrap().0 =~= text_at(
        chars@,
        pos as int,
    ).unwrap().0);
    while i < chars.len()
        invariant
            pos <= i <= chars.len(),
            text_at(chars@, pos as int) == after_prefix(read@, text_at(chars@, i as int)),
        decreases chars.len() - i,
    {
        let ghost before = read@;
        let c = chars[i];
        if c != '\'' {
            push_char(&mut read, c);
            proof {
                let rest = text_at(chars@, i + 1);
                if rest is Some {
                    assert(before + (seq![c] + rest.unwrap().0) =~= before.push(c)
                        + rest.unwrap().0);
                }
            }
            i += 1;
        } else if i + 1 < chars.len() && chars[i + 1] == '\'' {
            push_char(&mut read, '\'');
            proof {
                let rest = text_at(chars@, i + 2);
                if rest is Some {
                    assert(before + (seq!['\''] + rest.unwrap().0) =~= before.push('\'')
                        + rest.unwrap().0);
                }
            }
            i += 2;
        } else {
            assert(before + Seq::<char>::empty() =~= before);
            return Some((read, i + 1));
        }
    }
    None
}

/// The value written at `pos`, with the position after it.
fn scan_value(chars: &Vec<char>, pos: usize) -> (found: Option<(SqlValue, usize)>)
    requires
        pos <= chars.len(),
    ensures
        match found {
            Some((value, end)) => value_at(chars@, pos as int) == Some((value@, end as int)) && pos
                < end <= chars.len(),
            None => value_at(chars@, pos as int) is None,
        },
{
    if found_at(chars, pos, "NULL") {
        proof {
            reveal_strlit("NULL");
        }
        return Some((SqlValue::Null, pos + 4));
    }
    if pos < chars.len() && chars[pos] == '\'' {
        return match scan_text(chars, pos + 1) {
            Some((t, end)) => Some((SqlValue::Text(t), end)),
            None => None,
        };
    }
    let start: usize = if pos < chars.len() && chars[pos] == '-' {
        pos + 1
    } else {
        pos
    };
    let whole = scan_numeral_digits(chars, start);
    let end = scan_numeral(chars, pos);
    if end > whole {
        let token = slice_text(chars, pos, end);
        match Decimal::parse(token.as_str()) {
            Some(d) => Some((SqlValue::Real(d), end)),
            None => None,
        }
    } else {
        match scan_integer(chars, pos) {
            Some((i, end)) => Some((SqlValue::Integer(i), end)),
            None => None,
        }
    }
}

/// A part that stands in a text shows its characters there.
proof fn lemma_starts_at_index(s: Seq<char>, pos: int, part: Seq<char>, k: int)
    requires
        starts_at(s, pos, part),
        0 <= k < part.len(),
    ensures
        s[pos + k] == part[k],
{
    assert(s.subrange(pos, pos + part.len())[k] == s[pos + k]);
}

/// Two parts stand one after the other exactly when their concatenation
/// stands there.
proof fn lemma_starts_at_concat(s: Seq<char>, pos: int, a: Seq<char>, b: Seq<char>)
    ensures
        starts_at(s, pos, a + b) <==> starts_at(s, pos, a) && starts_at(s, pos + a.len(), b),
{
    if starts_at(s, pos, a + b) {
        assert(s.subrange(pos, pos + a.len()) =~= (a + b).subrange(0, a.len() as int)) by {
            assert forall|k: int| 0 <= k < a.len() implies s.subrange(pos, pos + a.len())[k] == (a
                + b)[k] by {
                lemma_starts_at_index(s, pos, a + b, k);
            }
        }
        assert((a + b).subrange(0, a.len() as int) =~= a);
        assert(s.subrange(pos + a.len(), pos + a.len() + b.len()) =~= b) by {
            assert forall|k: int| 0 <= k < b.len() implies s.subrange(
                pos + a.len(),
                pos + a.len() + b.len(),
            )[k] == b[k] by {
                lemma_starts_at_index(s, pos, a + b, a.len() + k);
            }
        }
    }
    if starts_at(s, pos, a) && starts_at(s, pos + a.len(), b) {
        assert(s.subrange(pos, pos + (a + b).len()) =~= a + b) by {
            assert forall|k: int| 0 <= k < (a + b).len() implies s.subrange(
                pos,
                pos + (a + b).len(),
            )[k] == (a + b)[k] by {
                if k < a.len() {
                    lemma_starts_at_index(s, pos, a, k);
                } else {
                    lemma_starts_at_index(s, pos + a.len(), b, k - a.len());
                }
            }
        }
    }
}

/// Whether a value or a name ends before position `pos`: the text ends
/// there, or a comma, a closing bracket or a space follows.
spec fn ends_at(s: Seq<char>, pos: int) -> bool {
    pos == s.len() || (0 <= pos < s.len() && (s[pos] == ',' || s[pos] == ')' || s[pos] == ' '
        || s[pos] == '='))
}

/// Whether every character of `name` is an identifier character.
spec fn identifier_chars(name: Seq<char>) -> bool {
    forall|i: int| 0 <= i < name.len() ==> is_identifier_char(#[trigger] name[i])
}

/// A name that stands in a text and ends there is read as a whole.
proof fn lemma_identifier_end(s: Seq<char>, pos: int, name: Seq<char>, k: int)
    requires
        starts_at(s, pos, name),
        identifier_chars(name),
        ends_at(s, pos + name.len()),
        0 <= k <= name.len(),
    ensures
        identifier_end(s, pos + k) == pos + name.len(),
    decreases name.len() - k,
{
    if k < name.len() {
        lemma_starts_at_index(s, pos, name, k);
        lemma_identifier_end(s, pos, name, k + 1);
    }
}

/// Whether every character of `digits` is a digit.
spec fn all_digits(digits: Seq<char>) -> bool {
    forall|i: int| 0 <= i < digits.len() ==> is_digit(#[trigger] digits[i])
}

/// Digits that stand in a text and end there are read as a whole.
proof fn lemma_digits_end(s: Seq<char>, pos: int, digits: Seq<char>, k: int)
    requires
        starts_at(s, pos, digits),
        all_digits(digits),
        pos + digits.len() == s.len() || !is_digit(s[pos + digits.len()]),
        0 <= k <= digits.len(),
    ensures
        digits_end(s, pos + k) == pos + digits.len(),
    decreases digits.len() - k,
{
    if k < digits.len() {
        lemma_starts_at_index(s, pos, digits, k);
        lemma_digits_end(s, pos, digits, k + 1);
    }
}

/// The number that digits write does not depend on where they stand.
proof fn lemma_digits_value_at(s: Seq<char>, pos: int, digits: Seq<char>, k: int)
    requires
        starts_at(s, pos, digits),
        0 <= k <= digits.len(),
    ensures
        digits_value(s, pos, pos + k) == digits_value(digits, 0, k),
    decreases k,
{
    if k > 0 {
        lemma_digits_value_at(s, pos, digits, k - 1);
        lemma_starts_at_index(s, pos, digits, k - 1);
    }
}

/// The numeral of a natural number is made of digits and writes that number.
proof fn lemma_decimal_digits(n: nat)
    ensures
        decimal_digits(n).len() > 0,
        all_digits(decimal_digits(n)),
        digits_value(decimal_digits(n), 0, decimal_digits(n).len() as int) == n,
    decreases n,
{
    let d = decimal_digits(n);
    if n < 10 {
        assert(d.len() == 1);
        assert(d[0] == digit_char(n as int));
        assert(digits_value(d, 0, 0) == 0);
        assert(digits_value(d, 0, 1) == digits_value(d, 0, 0) * 10 + digit_value(d[0]));
    } else {
        let front = decimal_digits(n / 10);
        lemma_decimal_digits(n / 10);
        assert(d == front.push(digit_char((n % 10) as int)));
        assert forall|i: int| 0 <= i < d.len() implies is_digit(#[trigger] d[i]) by {
            if i < front.len() {
                assert(d[i] == front[i]);
            }
        }
        lemma_digits_value_prefix(d, front, front.len() as int);
        assert(digits_value(d, 0, d.len() as int) == digits_value(d, 0, d.len() - 1) * 10
            + digit_value(d[d.len() - 1]));
    }
}

/// The number that the first digits write is the same in a longer numeral.
proof fn lemma_digits_value_prefix(s: Seq<char>, front: Seq<char>, k: int)
    requires
        0 <= k <= front.len() <= s.len(),
        forall|i: int| 0 <= i < front.len() ==> s[i] == front[i],
    ensures
        digits_value(s, 0, k) == digits_value(front, 0, k),
    decreases k,
{
    if k > 0 {
        lemma_digits_value_prefix(s, front, k - 1);
    }
}

/// An integer that stands in a text and ends there is read as that integer.
proof fn lemma_integer_at(s: Seq<char>, pos: int, i: int)
    requires
        starts_at(s, pos, decimal(i)),
        i64::MIN <= i <= i64::MAX,
        ends_at(s, pos + decimal(i).len()),
    ensures
        integer_at(s, pos) == Some((i, pos + decimal(i).len())),
{
    let magnitude = if i < 0 {
        (-i) as nat
    } else {
        i as nat
    };
    let digits = decimal_digits(magnitude);
    lemma_decimal_digits(magnitude);
    if i < 0 {
        lemma_starts_at_concat(s, pos, seq!['-'], digits);
        lemma_starts_at_index(s, pos, seq!['-'], 0);
        assert(sign_end(s, pos) == pos + 1);
        lemma_digits_end(s, pos + 1, digits, 0);
        lemma_digits_value_at(s, pos + 1, digits, digits.len() as int);
    } else {
        lemma_starts_at_index(s, pos, digits, 0);
        assert(is_digit(digits[0]));
        assert(sign_end(s, pos) == pos);
        lemma_digits_end(s, pos, digits, 0);
        lemma_digits_value_at(s, pos, digits, digits.len() as int);
    }
}

/// A text that stands escaped in a statement, with the quote that ends it,
/// is read as that text.
proof fn lemma_text_at(s: Seq<char>, pos: int, t: Seq<char>)
    requires
        starts_at(s, pos, escaped(t) + seq!['\'']),
        pos + escaped(t).len() + 1 == s.len() || s[pos + escaped(t).len() + 1] != '\'',
    ensures
        text_at(s, pos) == Some((t, pos + escaped(t).len() + 1)),
    decreases t.len(),
{
    let whole = escaped(t);
    if t.len() == 0 {
        assert(whole.len() == 0);
        lemma_starts_at_index(s, pos, whole + seq!['\''], 0);
    } else {
        let first = escaped_char(t[0]);
        let rest = escaped(t.skip(1));
        assert(whole + seq!['\''] =~= first + (rest + seq!['\'']));
        lemma_starts_at_concat(s, pos, first, rest + seq!['\'']);
        lemma_text_at(s, pos + first.len(), t.skip(1));
        lemma_starts_at_index(s, pos, first, 0);
        if t[0] == '\'' {
            lemma_starts_at_index(s, pos, first, 1);
            assert(seq!['\''] + t.skip(1) =~= t);
        } else {
            assert(seq![s[pos]] + t.skip(1) =~= t);
        }
    }
}

/// A run of digits inside a numeral ends where it ends in the numeral
/// itself, wherever the numeral stands.
proof fn lemma_digits_end_shift(s: Seq<char>, pos: int, x: Seq<char>, k: int)
    requires
        starts_at(s, pos, x),
        0 <= k <= x.len(),
        pos + x.len() == s.len() || !is_digit(s[pos + x.len()]),
    ensures
        digits_end(s, pos + k) == pos + digits_end(x, k),
    decreases x.len() - k,
{
    if k < x.len() {
        lemma_starts_at_index(s, pos, x, k);
        if is_digit(x[k]) {
            lemma_digits_end_shift(s, pos, x, k + 1);
        }
    }
}

/// A numeral of a real number that stands in a text and ends there is read
/// as a whole, and not taken for an integer.
proof fn lemma_numeral_at(s: Seq<char>, pos: int, x: Seq<char>)
    requires
        starts_at(s, pos, x),
        is_decimal(x),
        ends_at(s, pos + x.len()),
    ensures
        numeral_end(s, pos) == pos + x.len(),
        digits_end(s, sign_end(s, pos)) < pos + x.len(),
        !starts_at(s, pos, "NULL"@),
        s[pos] != '\'',
{
    reveal_strlit("NULL");
    let sign = sign_end(x, 0);
    let whole = digits_end(x, sign);
    lemma_starts_at_index(s, pos, x, 0);
    assert(sign_end(s, pos) == pos + sign);
    lemma_digits_end_bounds(x, sign);
    lemma_digits_end_shift(s, pos, x, sign);
    assert(digits_end(s, pos + sign) == pos + whole);
    lemma_starts_at_index(s, pos, x, sign);
    assert(is_digit(x[sign]));
    // the fraction
    lemma_starts_at_index(s, pos, x, whole);
    let fraction = fraction_end(x, whole);
    if x[whole] == '.' {
        lemma_digits_end_bounds(x, whole + 1);
        lemma_digits_end_shift(s, pos, x, whole + 1);
    }
    assert(fraction_end(s, pos + whole) == pos + fraction);
    // the exponent
    if fraction < x.len() {
        lemma_starts_at_index(s, pos, x, fraction);
        if x[fraction] == 'e' || x[fraction] == 'E' {
            let signed = exponent_sign_end(x, fraction + 1);
            if fraction + 1 < x.len() {
                lemma_starts_at_index(s, pos, x, fraction + 1);
            }
            assert(exponent_sign_end(s, pos + fraction + 1) == pos + signed);
            lemma_digits_end_bounds(x, signed);
            lemma_digits_end_shift(s, pos, x, signed);
        }
    }
    assert(exponent_end(s, pos + fraction) == pos + exponent_end(
        x,
        fraction,
    ));
}

/// A value that stands in a statement as it is written, and ends there, is
/// read as that value.
proof fn lemma_value_at(s: Seq<char>, pos: int, v: Scalar)
    requires
        starts_at(s, pos, quote(v)),
        v.well_formed(),
        ends_at(s, pos + quote(v).len()),
    ensures
        value_at(s, pos) == Some((v, pos + quote(v).len())),
        quote(v).len() > 0,
{
    reveal_strlit("NULL");
    match v {
        Scalar::Null => {},
        Scalar::Integer(i) => {
            let magnitude = if i < 0 {
                (-i) as nat
            } else {
                i as nat
            };
            lemma_decimal_digits(magnitude);
            lemma_integer_at(s, pos, i);
            lemma_starts_at_index(s, pos, decimal(i), 0);
            assert(is_digit(decimal_digits(magnitude)[0]));
            assert(s[pos] == '-' || is_digit(s[pos]));
            assert(!starts_at(s, pos, "NULL"@)) by {
                if starts_at(s, pos, "NULL"@) {
                    lemma_starts_at_index(s, pos, "NULL"@, 0);
                }
            }
            let whole = digits_end(s, sign_end(s, pos));
            assert(whole == pos + decimal(i).len());
            assert(fraction_end(s, whole) == whole);
            assert(exponent_end(s, whole) == whole);
        },
        Scalar::Real(numeral) => {
            lemma_numeral_at(s, pos, numeral);
            assert(s.subrange(pos, pos + numeral.len()) == numeral);
        },
        Scalar::Text(t) => {
            let body = escaped(t) + seq!['\''];
            assert(quote(v) =~= seq!['\''] + body);
            lemma_starts_at_concat(s, pos, seq!['\''], body);
            lemma_starts_at_index(s, pos, seq!['\''], 0);
            lemma_text_at(s, pos + 1, t);
            assert(!starts_at(s, pos, "NULL"@)) by {
                if starts_at(s, pos, "NULL"@) {
                    lemma_starts_at_index(s, pos, "NULL"@, 0);
                }
            }
        },
    }
}

/// The names listed from `pos` on, each after a comma and a space, with
/// the position after the last of them.
spec fn names_at(s: Seq<char>, pos: int) -> (Seq<Seq<char>>, int)
    decreases s.len() - pos,
{
    let end = identifier_end(s, pos + 2);
    if starts_at(s, pos, ", "@) && pos + 2 < end <= s.len() {
        (seq![s.subrange(pos + 2, end)] + names_at(s, end).0, names_at(s, end).1)
    } else {
        (Seq::empty(), pos)
    }
}

/// The values listed from `pos` on, each after a comma and a space, with
/// the position after the last of them; none where a comma and a space are
/// followed by no value.
spec fn values_at(s: Seq<char>, pos: int) -> Option<(Seq<Scalar>, int)>
    decreases s.len() - pos,
{
    if starts_at(s, pos, ", "@) {
        match value_at(s, pos + 2) {
            Some((v, end)) => if pos + 2 < end <= s.len() {
                match values_at(s, end) {
                    Some((rest, last)) => Some((seq![v] + rest, last)),
                    None => None,
                }
            } else {
                None
            },
            None => None,
        }
    } else {
        Some((Seq::empty(), pos))
    }
}

/// The assignment written at `pos`, a name, an equals sign and a value, with
/// the position after it.
spec fn assignment_at(s: Seq<char>, pos: int) -> Option<((Seq<char>, Scalar), int)> {
    let name_end = identifier_end(s, pos);
    if 0 <= pos < name_end <= s.len() && starts_at(s, name_end, "="@) {
        match value_at(s, name_end + 1) {
            Some((v, end)) => Some(((s.subrange(pos, name_end), v), end)),
            None => None,
        }
    } else {
        None
    }
}

/// The assignments listed from `pos` on, each after a comma and a space,
/// with the position after the last of them; none where a comma and a space
/// are followed by no assignment.
spec fn assignments_at(s: Seq<char>, pos: int) -> Option<
    (Seq<(Seq<char>, Scalar)>, int),
>
    decreases s.len() - pos,
{
    if starts_at(s, pos, ", "@) {
        match assignment_at(s, pos + 2) {
            Some((a, end)) => if pos + 2 < end <= s.len() {
                match assignments_at(s, end) {
                    Some((rest, last)) => Some((seq![a] + rest, last)),
                    None => None,
                }
            } else {
                None
            },
            None => None,
        }
    } else {
        Some((Seq::empty(), pos))
    }
}

/// Whether each of the names is a non-empty run of identifier characters.
spec fn plain_names(names: Seq<Seq<char>>) -> bool {
    forall|i: int|
        0 <= i < names.len() ==> (#[trigger] names[i]).len() > 0 && identifier_chars(names[i])
}

/// Names that stand listed in a statement are read as those names.
proof fn lemma_names_at(s: Seq<char>, pos: int, names: Seq<Seq<char>>)
    requires
        starts_at(s, pos, each_after(", "@, names)),
        plain_names(names),
        0 <= pos + each_after(", "@, names).len() < s.len(),
        s[pos + each_after(", "@, names).len()] == ')',
    ensures
        names_at(s, pos) == (names, pos + each_after(", "@, names).len()),
    decreases names.len(),
{
    reveal_strlit(", ");
    let listed = each_after(", "@, names);
    if names.len() == 0 {
        assert(!starts_at(s, pos, ", "@)) by {
            if starts_at(s, pos, ", "@) {
                lemma_starts_at_index(s, pos, ", "@, 0);
            }
        }
    } else {
        let rest = each_after(", "@, names.skip(1));
        assert(listed =~= ", "@ + (names[0] + rest));
        lemma_starts_at_concat(s, pos, ", "@, names[0] + rest);
        lemma_starts_at_concat(s, pos + 2, names[0], rest);
        let end = pos + 2 + names[0].len();
        assert(ends_at(s, end)) by {
            if names.len() == 1 {
                assert(rest.len() == 0);
            } else {
                let more = each_after(", "@, names.skip(1).skip(1));
                assert(rest =~= ", "@ + (names.skip(1)[0] + more));
                lemma_starts_at_concat(s, end, ", "@, names.skip(1)[0] + more);
                lemma_starts_at_index(s, end, ", "@, 0);
            }
        }
        lemma_identifier_end(s, pos + 2, names[0], 0);
        assert(plain_names(names.skip(1))) by {
            assert forall|i: int| 0 <= i < names.skip(1).len() implies (#[trigger] names.skip(
                1,
            )[i]).len() > 0 && identifier_chars(names.skip(1)[i]) by {
                assert(names.skip(1)[i] == names[i + 1]);
            }
        }
        lemma_names_at(s, end, names.skip(1));
        assert(seq![names[0]] + names.skip(1) =~= names);
    }
}

/// Values that stand listed in a statement are read as those values.
proof fn lemma_values_at(s: Seq<char>, pos: int, values: Seq<Scalar>)
    requires
        starts_at(s, pos, each_after(", "@, quoted_all(values))),
        all_well_formed(values),
        0 <= pos + each_after(", "@, quoted_all(values)).len()
            < s.len(),
        s[pos + each_after(", "@, quoted_all(values)).len()] == ')',
    ensures
        values_at(s, pos) == Some(
            (values, pos + each_after(", "@, quoted_all(values)).len()),
        ),
    decreases values.len(),
{
    reveal_strlit(", ");
    let quoted = quoted_all(values);
    let listed = each_after(", "@, quoted);
    if values.len() == 0 {
        assert(!starts_at(s, pos, ", "@)) by {
            if starts_at(s, pos, ", "@) {
                lemma_starts_at_index(s, pos, ", "@, 0);
            }
        }
    } else {
        assert(quoted.skip(1) =~= quoted_all(values.skip(1)));
        let rest = each_after(", "@, quoted.skip(1));
        assert(listed =~= ", "@ + (quoted[0] + rest));
        lemma_starts_at_concat(s, pos, ", "@, quoted[0] + rest);
        lemma_starts_at_concat(s, pos + 2, quoted[0], rest);
        let end = pos + 2 + quoted[0].len();
        assert(ends_at(s, end)) by {
            if values.len() == 1 {
                assert(rest.len() == 0);
            } else {
                let more = each_after(", "@, quoted.skip(1).skip(1));
                assert(rest =~= ", "@ + (quoted.skip(1)[0] + more));
                lemma_starts_at_concat(s, end, ", "@, quoted.skip(1)[0] + more);
                lemma_starts_at_index(s, end, ", "@, 0);
            }
        }
        assert(values[0].well_formed());
        lemma_value_at(s, pos + 2, values[0]);
        assert(all_well_formed(values.skip(1))) by {
            assert forall|i: int| 0 <= i < values.skip(1).len() implies (#[trigger] values.skip(
                1,
            )[i]).well_formed() by {
                assert(values.skip(1)[i] == values[i + 1]);
            }
        }
        lemma_values_at(s, end, values.skip(1));
        assert(seq![values[0]] + values.skip(1) =~= values);
    }
}

/// The names and the values of the columns, pair by pair.
spec fn paired(names: Seq<Seq<char>>, values: Seq<Scalar>) -> Seq<(Seq<char>, Scalar)> {
    Seq::new(names.len(), |i: int| (names[i], values[i]))
}

/// An assignment that stands in a statement and ends there is read as its
/// name and its value.
proof fn lemma_assignment_at(s: Seq<char>, pos: int, name: Seq<char>, v: Scalar)
    requires
        starts_at(s, pos, name + "="@ + quote(v)),
        name.len() > 0,
        identifier_chars(name),
        v.well_formed(),
        ends_at(s, pos + (name + "="@ + quote(v)).len()),
    ensures
        assignment_at(s, pos) == Some(((name, v), pos + (name + "="@ + quote(v)).len())),
{
    reveal_strlit("=");
    lemma_starts_at_concat(s, pos, name + "="@, quote(v));
    lemma_starts_at_concat(s, pos, name, "="@);
    lemma_starts_at_index(s, pos + name.len(), "="@, 0);
    lemma_identifier_end(s, pos, name, 0);
    lemma_value_at(s, pos + name.len() + 1, v);
}

/// Assignments that stand listed in a statement are read as those
/// assignments.
proof fn lemma_assignments_at(s: Seq<char>, pos: int, names: Seq<Seq<char>>, values: Seq<Scalar>)
    requires
        names.len() == values.len(),
        starts_at(
            s,
            pos,
            each_after(", "@, assignments(names, values)),
        ),
        plain_names(names),
        all_well_formed(values),
        0 <= pos + each_after(
            ", "@,
            assignments(names, values),
        ).len() < s.len(),
        s[pos + each_after(", "@, assignments(names, values)).len()]
            == ' ',
    ensures
        assignments_at(s, pos) == Some(
            (
                paired(names, values),
                pos + each_after(
                    ", "@,
                    assignments(names, values),
                ).len(),
            ),
        ),
    decreases names.len(),
{
    reveal_strlit(", ");
    let all = assignments(names, values);
    let listed = each_after(", "@, all);
    if names.len() == 0 {
        assert(!starts_at(s, pos, ", "@)) by {
            if starts_at(s, pos, ", "@) {
                lemma_starts_at_index(s, pos, ", "@, 0);
            }
        }
        assert(paired(names, values) =~= Seq::empty());
    } else {
        assert(all.skip(1) =~= assignments(names.skip(1), values.skip(1)));
        let rest = each_after(", "@, all.skip(1));
        assert(listed =~= ", "@ + (all[0] + rest));
        lemma_starts_at_concat(s, pos, ", "@, all[0] + rest);
        lemma_starts_at_concat(s, pos + 2, all[0], rest);
        let end = pos + 2 + all[0].len();
        assert(ends_at(s, end)) by {
            if names.len() == 1 {
                assert(rest.len() == 0);
            } else {
                let more = each_after(", "@, all.skip(1).skip(1));
                assert(rest =~= ", "@ + (all.skip(1)[0] + more));
                lemma_starts_at_concat(s, end, ", "@, all.skip(1)[0] + more);
                lemma_starts_at_index(s, end, ", "@, 0);
            }
        }
        assert(values[0].well_formed());
        lemma_assignment_at(s, pos + 2, names[0], values[0]);
        assert(plain_names(names.skip(1))) by {
            assert forall|i: int| 0 <= i < names.skip(1).len() implies (#[trigger] names.skip(
                1,
            )[i]).len() > 0 && identifier_chars(names.skip(1)[i]) by {
                assert(names.skip(1)[i] == names[i + 1]);
            }
        }
        assert(all_well_formed(values.skip(1))) by {
            assert forall|i: int| 0 <= i < values.skip(1).len() implies (#[trigger] values.skip(
                1,
            )[i]).well_formed() by {
                assert(values.skip(1)[i] == values[i + 1]);
            }
        }
        lemma_assignments_at(s, end, names.skip(1), values.skip(1));
        assert(seq![(names[0], values[0])] + paired(names.skip(1), values.skip(1)) =~= paired(
            names,
            values,
        ));
    }
}

/// The names of pairs, in order.
spec fn pair_names(pairs: Seq<(Seq<char>, Scalar)>) -> Seq<Seq<char>> {
    Seq::new(pairs.len(), |i: int| pairs[i].0)
}

/// The values of pairs, in order.
spec fn pair_values(pairs: Seq<(Seq<char>, Scalar)>) -> Seq<Scalar> {
    Seq::new(pairs.len(), |i: int| pairs[i].1)
}

/// The delete that `s` is read as, if it starts as a delete does.
spec fn delete_at(s: Seq<char>) -> Option<Statement> {
    let start = "DELETE FROM "@.len() as int;
    let table_end = identifier_end(s, start);
    if start < table_end <= s.len() && starts_at(s, table_end, " WHERE id="@) {
        match integer_at(s, table_end + " WHERE id="@.len()) {
            Some((key, end)) => if end == s.len() {
                Some(Statement::Delete { table: s.subrange(start, table_end), key })
            } else {
                None
            },
            None => None,
        }
    } else {
        None
    }
}

/// The insert that `s` is read as, if it starts as an insert does.
spec fn insert_at(s: Seq<char>) -> Option<Statement> {
    let start = "INSERT INTO "@.len() as int;
    let table_end = identifier_end(s, start);
    if start < table_end <= s.len() && starts_at(s, table_end, " (id"@) {
        let (columns, names_end) = names_at(s, table_end + " (id"@.len());
        if 0 <= names_end && starts_at(s, names_end, ") VALUES ("@) {
            match integer_at(s, names_end + ") VALUES ("@.len()) {
                Some((key, key_end)) => match values_at(s, key_end) {
                    Some((values, values_end)) => if starts_at(s, values_end, ");"@) && values_end
                        + ");"@.len() == s.len() {
                        Some(
                            Statement::Insert {
                                table: s.subrange(start, table_end),
                                key,
                                columns,
                                values,
                            },
                        )
                    } else {
                        None
                    },
                    None => None,
                },
                None => None,
            }
        } else {
            None
        }
    } else {
        None
    }
}

/// The update that `s` is read as, if it starts as an update does.
spec fn update_at(s: Seq<char>) -> Option<Statement> {
    let start = "UPDATE "@.len() as int;
    let table_end = identifier_end(s, start);
    if start < table_end <= s.len() && starts_at(s, table_end, " SET "@) {
        match assignment_at(s, table_end + " SET "@.len()) {
            Some((first, first_end)) => match assignments_at(s, first_end) {
                Some((more, last_end)) => if 0 <= last_end && starts_at(
                    s,
                    last_end,
                    " WHERE id="@,
                ) {
                    match integer_at(s, last_end + " WHERE id="@.len()) {
                        Some((key, end)) => if end == s.len() {
                            Some(
                                Statement::Update {
                                    table: s.subrange(start, table_end),
                                    key,
                                    columns: pair_names(seq![first] + more),
                                    values: pair_values(seq![first] + more),
                                },
                            )
                        } else {
                            None
                        },
                        None => None,
                    }
                } else {
                    None
                },
                None => None,
            },
            None => None,
        }
    } else {
        None
    }
}

/// The statement that `s` is read as, going by its first word.
spec fn statement_at(s: Seq<char>) -> Option<Statement> {
    if starts_at(s, 0, "DELETE FROM "@) {
        delete_at(s)
    } else if starts_at(s, 0, "INSERT INTO "@) {
        insert_at(s)
    } else if starts_at(s, 0, "UPDATE "@) {
        update_at(s)
    } else {
        None
    }
}

/// The statement that a text writes: the well-formed statement whose text
/// it is, if there is one. There is never more than one.
#[verifier::opaque]
pub open spec fn read_statement(text: Seq<char>) -> Option<Statement> {
    if exists|statement: Statement| statement.well_formed() && #[trigger] render(statement) == text {
        Some(
            choose|statement: Statement|
                statement.well_formed() && #[trigger] render(statement) == text,
        )
    } else {
        None
    }
}

/// A text stands at the start of itself.
proof fn lemma_starts_at_self(s: Seq<char>)
    ensures
        starts_at(s, 0, s),
{
    assert(s.subrange(0, s.len() as int) =~= s);
}

/// Every character of an identifier is an identifier character.
proof fn lemma_identifier_is_plain(name: Seq<char>)
    requires
        is_identifier(name),
    ensures
        name.len() > 0,
        identifier_chars(name),
{
}

/// The columns of a well-formed schema are plain names.
proof fn lemma_columns_are_plain(schema: TableSchema)
    requires
        schema.well_formed(),
    ensures
        plain_names(schema.columns),
{
    assert forall|i: int| 0 <= i < schema.columns.len() implies (#[trigger] schema.columns[i]).len()
        > 0 && identifier_chars(schema.columns[i]) by {
        lemma_identifier_is_plain(schema.columns[i]);
    }
}

/// A well-formed delete is read back from its text.
proof fn lemma_delete_at(table: Seq<char>, key: int)
    requires
        (Statement::Delete { table, key }).well_formed(),
    ensures
        statement_at(render(Statement::Delete { table, key })) == Some(
            Statement::Delete { table, key },
        ),
{
    reveal_strlit("DELETE FROM ");
    reveal_strlit(" WHERE id=");
    let s = render(Statement::Delete { table, key });
    let a = "DELETE FROM "@;
    let b = " WHERE id="@;
    lemma_starts_at_self(s);
    lemma_starts_at_concat(s, 0, a + table + b, decimal(key));
    lemma_starts_at_concat(s, 0, a + table, b);
    lemma_starts_at_concat(s, 0, a, table);
    lemma_identifier_is_plain(table);
    lemma_starts_at_index(s, (a.len() + table.len()) as int, b, 0);
    lemma_identifier_end(s, a.len() as int, table, 0);
    lemma_integer_at(s, (a.len() + table.len() + b.len()) as int, key);
    assert(s.subrange(a.len() as int, (a.len() + table.len()) as int) == table);
}

/// Where the parts of a text of eight parts stand.
proof fn lemma_eight_parts(
    s: Seq<char>,
    a: Seq<char>,
    b: Seq<char>,
    c: Seq<char>,
    d: Seq<char>,
    e: Seq<char>,
    f: Seq<char>,
    g: Seq<char>,
    h: Seq<char>,
)
    requires
        s == a + b + c + d + e + f + g + h,
    ensures
        starts_at(s, 0, a),
        starts_at(s, a.len() as int, b),
        starts_at(s, (a.len() + b.len()) as int, c),
        starts_at(s, (a.len() + b.len() + c.len()) as int, d),
        starts_at(s, (a.len() + b.len() + c.len() + d.len()) as int, e),
        starts_at(s, (a.len() + b.len() + c.len() + d.len() + e.len()) as int, f),
        starts_at(s, (a.len() + b.len() + c.len() + d.len() + e.len() + f.len()) as int, g),
        starts_at(
            s,
            (a.len() + b.len() + c.len() + d.len() + e.len() + f.len() + g.len()) as int,
            h,
        ),
        s.len() == a.len() + b.len() + c.len() + d.len() + e.len() + f.len() + g.len() + h.len(),
{
    lemma_starts_at_self(s);
    lemma_starts_at_concat(s, 0, a + b + c + d + e + f + g, h);
    lemma_starts_at_concat(s, 0, a + b + c + d + e + f, g);
    lemma_starts_at_concat(s, 0, a + b + c + d + e, f);
    lemma_starts_at_concat(s, 0, a + b + c + d, e);
    lemma_starts_at_concat(s, 0, a + b + c, d);
    lemma_starts_at_concat(s, 0, a + b, c);
    lemma_starts_at_concat(s, 0, a, b);
}

/// The parts of the text of an insert, and where they stand.
proof fn lemma_insert_layout(
    table: Seq<char>,
    key: int,
    columns: Seq<Seq<char>>,
    values: Seq<Scalar>,
)
    ensures
        ({
            let s = render(Statement::Insert { table, key, columns, values });
            let names = each_after(", "@, columns);
            let listed = each_after(", "@, quoted_all(values));
            let table_end: int = 12 + table.len() as int;
            let names_end: int = table_end + 4 + names.len() as int;
            let key_end: int = names_end + 10 + decimal(key).len() as int;
            let values_end: int = key_end + listed.len() as int;
            &&& starts_at(s, 0, "INSERT INTO "@)
            &&& starts_at(s, 12, table)
            &&& starts_at(s, table_end, " (id"@)
            &&& starts_at(s, table_end + 4, names)
            &&& starts_at(s, names_end, ") VALUES ("@)
            &&& starts_at(s, names_end + 10, decimal(key))
            &&& starts_at(s, key_end, listed)
            &&& starts_at(s, values_end, ");"@)
            &&& s.len() == values_end + 2
            &&& !starts_at(s, 0, "DELETE FROM "@)
            &&& s[table_end] == ' '
            &&& s[names_end] == ')'
            &&& s[values_end] == ')'
        }),
{
    let s = render(Statement::Insert { table, key, columns, values });
    let a = "INSERT INTO "@;
    let b = " (id"@;
    let names = each_after(", "@, columns);
    let c = ") VALUES ("@;
    let k = decimal(key);
    let listed = each_after(", "@, quoted_all(values));
    let d = ");"@;
    lemma_eight_parts(s, a, table, b, names, c, k, listed, d);
    assert(a.len() == 12 && a[0] == 'I') by {
        reveal_strlit("INSERT INTO ");
    }
    assert(b.len() == 4 && b[0] == ' ') by {
        reveal_strlit(" (id");
    }
    assert(c.len() == 10 && c[0] == ')') by {
        reveal_strlit(") VALUES (");
    }
    assert(d.len() == 2 && d[0] == ')') by {
        reveal_strlit(");");
    }
    lemma_first_char(s, 0, a);
    lemma_first_char(s, (12 + table.len()) as int, b);
    lemma_first_char(s, (12 + table.len() + 4 + names.len()) as int, c);
    lemma_first_char(
        s,
        (12 + table.len() + 4 + names.len() + 10 + k.len() + listed.len()) as int,
        d,
    );
    assert(!starts_at(s, 0, "DELETE FROM "@)) by {
        reveal_strlit("DELETE FROM ");
        if starts_at(s, 0, "DELETE FROM "@) {
            lemma_starts_at_index(s, 0, "DELETE FROM "@, 0);
        }
    }
}

/// A well-formed insert is read back from its text.
proof fn lemma_insert_at(table: Seq<char>, key: int, columns: Seq<Seq<char>>, values: Seq<Scalar>)
    requires
        (Statement::Insert { table, key, columns, values }).well_formed(),
    ensures
        statement_at(render(Statement::Insert { table, key, columns, values })) == Some(
            Statement::Insert { table, key, columns, values },
        ),
{
    let s = render(Statement::Insert { table, key, columns, values });
    let names = each_after(", "@, columns);
    let listed = each_after(", "@, quoted_all(values));
    lemma_insert_layout(table, key, columns, values);
    assert("INSERT INTO "@.len() == 12) by {
        reveal_strlit("INSERT INTO ");
    }
    assert(" (id"@.len() == 4) by {
        reveal_strlit(" (id");
    }
    assert(") VALUES ("@.len() == 10) by {
        reveal_strlit(") VALUES (");
    }
    assert(");"@.len() == 2) by {
        reveal_strlit(");");
    }
    let table_end: int = 12 + table.len() as int;
    let names_end: int = table_end + 4 + names.len() as int;
    let key_end: int = names_end + 10 + decimal(key).len() as int;
    let values_end: int = key_end + listed.len() as int;
    lemma_identifier_is_plain(table);
    assert(identifier_end(s, 12) == table_end) by {
        lemma_identifier_end(s, 12, table, 0);
    }
    assert(s.subrange(12, table_end) == table);
    lemma_columns_are_plain(TableSchema { name: table, columns });
    assert(names_at(s, table_end + 4) == (columns, names_end)) by {
        lemma_names_at(s, table_end + 4, columns);
    }
    assert(ends_at(s, key_end)) by {
        if values.len() > 0 {
            lemma_list_continues(s, key_end, quoted_all(values));
        }
    }
    assert(integer_at(s, names_end + 10) == Some((key, key_end))) by {
        lemma_integer_at(s, names_end + 10, key);
    }
    assert(values_at(s, key_end) == Some((values, values_end))) by {
        lemma_values_at(s, key_end, values);
    }
    assert(insert_at(s) == Some(Statement::Insert { table, key, columns, values }));
}

/// Where the parts of a text of seven parts stand.
proof fn lemma_seven_parts(
    s: Seq<char>,
    a: Seq<char>,
    b: Seq<char>,
    c: Seq<char>,
    d: Seq<char>,
    e: Seq<char>,
    f: Seq<char>,
    g: Seq<char>,
)
    requires
        s == a + b + c + d + e + f + g,
    ensures
        starts_at(s, 0, a),
        starts_at(s, a.len() as int, b),
        starts_at(s, (a.len() + b.len()) as int, c),
        starts_at(s, (a.len() + b.len() + c.len()) as int, d),
        starts_at(s, (a.len() + b.len() + c.len() + d.len()) as int, e),
        starts_at(s, (a.len() + b.len() + c.len() + d.len() + e.len()) as int, f),
        starts_at(s, (a.len() + b.len() + c.len() + d.len() + e.len() + f.len()) as int, g),
        s.len() == a.len() + b.len() + c.len() + d.len() + e.len() + f.len() + g.len(),
{
    lemma_starts_at_self(s);
    lemma_starts_at_concat(s, 0, a + b + c + d + e + f, g);
    lemma_starts_at_concat(s, 0, a + b + c + d + e, f);
    lemma_starts_at_concat(s, 0, a + b + c + d, e);
    lemma_starts_at_concat(s, 0, a + b + c, d);
    lemma_starts_at_concat(s, 0, a + b, c);
    lemma_starts_at_concat(s, 0, a, b);
}

/// The first character of a part that stands in a text.
proof fn lemma_first_char(s: Seq<char>, pos: int, part: Seq<char>)
    requires
        starts_at(s, pos, part),
        part.len() > 0,
    ensures
        0 <= pos < s.len(),
        s[pos] == part[0],
{
    lemma_starts_at_index(s, pos, part, 0);
}

/// The tail of a list of well-formed columns and values is well formed.
proof fn lemma_tail_well_formed(columns: Seq<Seq<char>>, values: Seq<Scalar>)
    requires
        plain_names(columns),
        all_well_formed(values),
        columns.len() > 0,
        values.len() == columns.len(),
    ensures
        plain_names(columns.skip(1)),
        all_well_formed(values.skip(1)),
        values[0].well_formed(),
        columns[0].len() > 0,
        identifier_chars(columns[0]),
{
    assert forall|i: int| 0 <= i < columns.skip(1).len() implies (#[trigger] columns.skip(
        1,
    )[i]).len() > 0 && identifier_chars(columns.skip(1)[i]) by {
        assert(columns.skip(1)[i] == columns[i + 1]);
    }
    assert forall|i: int| 0 <= i < values.skip(1).len() implies (#[trigger] values.skip(
        1,
    )[i]).well_formed() by {
        assert(values.skip(1)[i] == values[i + 1]);
    }
}

/// What follows an element of a list that is written with a comma and a
/// space in front of each further element: a comma, or whatever follows the
/// list.
proof fn lemma_list_continues(s: Seq<char>, pos: int, parts: Seq<Seq<char>>)
    requires
        starts_at(s, pos, each_after(", "@, parts)),
        parts.len() > 0,
    ensures
        0 <= pos < s.len(),
        s[pos] == ',',
{
    reveal_strlit(", ");
    let rest = parts[0] + each_after(", "@, parts.skip(1));
    assert(each_after(", "@, parts) =~= ", "@ + rest);
    lemma_starts_at_concat(s, pos, ", "@, rest);
    lemma_starts_at_index(s, pos, ", "@, 0);
}

/// The parts of the text of an update, and where they stand.
proof fn lemma_update_layout(
    table: Seq<char>,
    key: int,
    columns: Seq<Seq<char>>,
    values: Seq<Scalar>,
)
    requires
        columns.len() > 0,
    ensures
        ({
            let s = render(Statement::Update { table, key, columns, values });
            let all = assignments(columns, values);
            let first = all[0];
            let more = each_after(", "@, all.skip(1));
            let table_end: int = 7 + table.len() as int;
            let first_end: int = table_end + 5 + first.len() as int;
            let more_end: int = first_end + more.len() as int;
            &&& starts_at(s, 0, "UPDATE "@)
            &&& starts_at(s, 7, table)
            &&& starts_at(s, table_end, " SET "@)
            &&& starts_at(s, table_end + 5, first)
            &&& starts_at(s, first_end, more)
            &&& starts_at(s, more_end, " WHERE id="@)
            &&& starts_at(s, more_end + 10, decimal(key))
            &&& s.len() == more_end + 10 + decimal(key).len()
            &&& !starts_at(s, 0, "DELETE FROM "@)
            &&& !starts_at(s, 0, "INSERT INTO "@)
            &&& s[table_end] == ' '
            &&& s[more_end] == ' '
        }),
{
    let s = render(Statement::Update { table, key, columns, values });
    let a = "UPDATE "@;
    let b = " SET "@;
    let all = assignments(columns, values);
    let first = all[0];
    let more = each_after(", "@, all.skip(1));
    let c = " WHERE id="@;
    let k = decimal(key);
    assert(join(all, ", "@) == first + more);
    assert(s =~= a + table + b + first + more + c + k);
    lemma_seven_parts(s, a, table, b, first, more, c, k);
    assert(a.len() == 7 && a[0] == 'U') by {
        reveal_strlit("UPDATE ");
    }
    assert(b.len() == 5 && b[0] == ' ') by {
        reveal_strlit(" SET ");
    }
    assert(c.len() == 10 && c[0] == ' ') by {
        reveal_strlit(" WHERE id=");
    }
    lemma_first_char(s, 0, a);
    lemma_first_char(s, (7 + table.len()) as int, b);
    lemma_first_char(s, (7 + table.len() + 5 + first.len() + more.len()) as int, c);
    assert(!starts_at(s, 0, "DELETE FROM "@)) by {
        reveal_strlit("DELETE FROM ");
        if starts_at(s, 0, "DELETE FROM "@) {
            lemma_starts_at_index(s, 0, "DELETE FROM "@, 0);
        }
    }
    assert(!starts_at(s, 0, "INSERT INTO "@)) by {
        reveal_strlit("INSERT INTO ");
        if starts_at(s, 0, "INSERT INTO "@) {
            lemma_starts_at_index(s, 0, "INSERT INTO "@, 0);
        }
    }
}

/// A well-formed update is read back from its text.
proof fn lemma_update_at(table: Seq<char>, key: int, columns: Seq<Seq<char>>, values: Seq<Scalar>)
    requires
        (Statement::Update { table, key, columns, values }).well_formed(),
    ensures
        statement_at(render(Statement::Update { table, key, columns, values }))
            == Some(Statement::Update { table, key, columns, values }),
{
    let s = render(Statement::Update { table, key, columns, values });
    let all = assignments(columns, values);
    let first = all[0];
    let more = each_after(", "@, all.skip(1));
    lemma_update_layout(table, key, columns, values);
    assert("UPDATE "@.len() == 7) by {
        reveal_strlit("UPDATE ");
    }
    assert(" SET "@.len() == 5) by {
        reveal_strlit(" SET ");
    }
    assert(" WHERE id="@.len() == 10) by {
        reveal_strlit(" WHERE id=");
    }
    let table_end: int = 7 + table.len() as int;
    let first_start: int = table_end + 5;
    let first_end: int = first_start + first.len();
    let more_end: int = first_end + more.len();
    lemma_identifier_is_plain(table);
    assert(identifier_end(s, 7) == table_end) by {
        lemma_identifier_end(s, 7, table, 0);
    }
    assert(s.subrange(7, table_end) == table);
    lemma_columns_are_plain(TableSchema { name: table, columns });
    lemma_tail_well_formed(columns, values);
    assert(all.skip(1) =~= assignments(columns.skip(1), values.skip(1)));
    assert(ends_at(s, first_end)) by {
        if columns.len() == 1 {
            assert(more.len() == 0);
        } else {
            lemma_list_continues(s, first_end, all.skip(1));
        }
    }
    assert(assignment_at(s, first_start) == Some(((columns[0], values[0]), first_end))) by {
        lemma_assignment_at(s, first_start, columns[0], values[0]);
    }
    assert(assignments_at(s, first_end) == Some(
        (paired(columns.skip(1), values.skip(1)), more_end),
    )) by {
        lemma_assignments_at(s, first_end, columns.skip(1), values.skip(1));
    }
    assert(integer_at(s, more_end + 10) == Some((key, s.len() as int))) by {
        lemma_integer_at(s, more_end + 10, key);
    }
    let pairs = seq![(columns[0], values[0])] + paired(columns.skip(1), values.skip(1));
    assert(pair_names(pairs) =~= columns);
    assert(pair_values(pairs) =~= values);
    assert(update_at(s) == Some(Statement::Update { table, key, columns, values }));
}

/// A well-formed statement is read back from its text: the same kind, the
/// same table and key, the same columns, and every value as it was.
proof fn lemma_statement_at(statement: Statement)
    requires
        statement.well_formed(),
    ensures
        statement_at(render(statement)) == Some(statement),
{
    match statement {
        Statement::Delete { table, key } => lemma_delete_at(table, key),
        Statement::Insert { table, key, columns, values } => lemma_insert_at(
            table,
            key,
            columns,
            values,
        ),
        Statement::Update { table, key, columns, values } => lemma_update_at(
            table,
            key,
            columns,
            values,
        ),
    }
}

/// The names listed from `pos` on, with the position after the last.
fn scan_names(chars: &Vec<char>, pos: usize) -> (found: (Vec<String>, usize))
    requires
        pos <= chars.len(),
    ensures
        names_at(chars@, pos as int) == (texts(found.0@), found.1 as int),
        pos <= found.1 <= chars.len(),
{
    let mut names: Vec<String> = Vec::new();
    let mut i: usize = pos;
    let mut more = true;
    assert(Seq::<Seq<char>>::empty() + names_at(chars@, pos as int).0 =~= names_at(
        chars@,
        pos as int,
    ).0);
    assert(texts(names@) =~= Seq::<Seq<char>>::empty());
    while more
        invariant
            pos <= i <= chars.len(),
            names_at(chars@, pos as int) == (
                texts(names@) + names_at(chars@, i as int).0,
                names_at(chars@, i as int).1,
            ),
            !more ==> names_at(chars@, i as int) == (Seq::<Seq<char>>::empty(), i as int),
        decreases chars.len() - i + (if more { 1int } else { 0int }),
    {
        more = false;
        if found_at(chars, i, ", ") {
            proof {
                reveal_strlit(", ");
            }
            let end = scan_identifier(chars, i + 2);
            if end > i + 2 {
                let ghost before = texts(names@);
                let ghost rest = names_at(chars@, end as int).0;
                let name = slice_text(chars, i + 2, end);
                names.push(name);
                assert(texts(names@) =~= before.push(
                    chars@.subrange(i + 2, end as int),
                ));
                assert(before + (seq![chars@.subrange(i + 2, end as int)] + rest) =~= before.push(
                    chars@.subrange(i + 2, end as int),
                ) + rest);
                i = end;
                more = true;
            }
        }
    }
    assert(texts(names@) + Seq::<Seq<char>>::empty() =~= texts(names@));
    (names, i)
}

/// What a list read from some position on is, given the values read before
/// that position.
spec fn after_values(read: Seq<Scalar>, rest: Option<(Seq<Scalar>, int)>) -> Option<
    (Seq<Scalar>, int),
> {
    match rest {
        Some((values, end)) => Some((read + values, end)),
        None => None,
    }
}

/// The values listed from `pos` on, with the position after the last.
fn scan_values(chars: &Vec<char>, pos: usize) -> (found: Option<(Vec<SqlValue>, usize)>)
    requires
        pos <= chars.len(),
    ensures
        match found {
            Some((values, end)) => values_at(chars@, pos as int) == Some(
                (values_view(values@), end as int),
            ) && pos <= end <= chars.len(),
            None => values_at(chars@, pos as int) is None,
        },
{
    let mut values: Vec<SqlValue> = Vec::new();
    let mut i: usize = pos;
    let mut more = true;
    assert(values_view(values@) =~= Seq::<Scalar>::empty());
    assert(values_at(chars@, pos as int) is Some ==> Seq::<Scalar>::empty() + values_at(
        chars@,
        pos as int,
    ).unwrap().0 =~= values_at(chars@, pos as int).unwrap().0);
    while more
        invariant
            pos <= i <= chars.len(),
            values_at(chars@, pos as int) == after_values(
                values_view(values@),
                values_at(chars@, i as int),
            ),
            !more ==> values_at(chars@, i as int) == Some((Seq::<Scalar>::empty(), i as int)),
        decreases chars.len() - i + (if more { 1int } else { 0int }),
    {
        more = false;
        if found_at(chars, i, ", ") {
            proof {
                reveal_strlit(", ");
            }
            match scan_value(chars, i + 2) {
                Some((value, end)) => {
                    let ghost before = values_view(values@);
                    let ghost rest = values_at(chars@, end as int);
                    let ghost one = value@;
                    values.push(value);
                    assert(values_view(values@) =~= before.push(one));
                    proof {
                        if rest is Some {
                            assert(before + (seq![one] + rest.unwrap().0) =~= before.push(one)
                                + rest.unwrap().0);
                        }
                    }
                    i = end;
                    more = true;
                },
                None => {
                    return None;
                },
            }
        }
    }
    assert(values_view(values@) + Seq::<Scalar>::empty()
        =~= values_view(values@));
    Some((values, i))
}

/// The assignment written at `pos`, with the position after it.
fn scan_assignment(chars: &Vec<char>, pos: usize) -> (found: Option<(String, SqlValue, usize)>)
    requires
        pos <= chars.len(),
    ensures
        match found {
            Some((name, value, end)) => assignment_at(chars@, pos as int) == Some(
                ((name@, value@), end as int),
            ) && pos < end <= chars.len(),
            None => assignment_at(chars@, pos as int) is None,
        },
{
    let name_end = scan_identifier(chars, pos);
    if name_end == pos || !found_at(chars, name_end, "=") {
        return None;
    }
    proof {
        reveal_strlit("=");
    }
    match scan_value(chars, name_end + 1) {
        Some((value, end)) => Some((slice_text(chars, pos, name_end), value, end)),
        None => None,
    }
}

/// What a list read from some position on is, given the assignments read
/// before that position.
spec fn after_pairs(
    read: Seq<(Seq<char>, Scalar)>,
    rest: Option<(Seq<(Seq<char>, Scalar)>, int)>,
) -> Option<(Seq<(Seq<char>, Scalar)>, int)> {
    match rest {
        Some((pairs, end)) => Some((read + pairs, end)),
        None => None,
    }
}

/// The assignments listed from `pos` on, added to the names and the values
/// read before, with the position after the last.
fn scan_assignments(
    chars: &Vec<char>,
    pos: usize,
    names: &mut Vec<String>,
    values: &mut Vec<SqlValue>,
) -> (found: Option<usize>)
    requires
        pos <= chars.len(),
        old(names).len() == old(values).len(),
    ensures
        match found {
            Some(end) => assignments_at(chars@, pos as int) is Some && assignments_at(
                chars@,
                pos as int,
            ).unwrap().1 == end && pos <= end <= chars.len() && paired(
                texts(final(names)@),
                values_view(final(values)@),
            ) == paired(
                texts(old(names)@),
                values_view(old(values)@),
            ) + assignments_at(chars@, pos as int).unwrap().0
                && final(names).len() == final(values).len(),
            None => assignments_at(chars@, pos as int) is None,
        },
{
    let ghost given = paired(
        texts(names@),
        values_view(values@),
    );
    let mut i: usize = pos;
    let mut more = true;
    assert(assignments_at(chars@, pos as int) is Some ==> Seq::<(Seq<char>, Scalar)>::empty()
        + assignments_at(chars@, pos as int).unwrap().0 =~= assignments_at(
        chars@,
        pos as int,
    ).unwrap().0);
    let ghost mut read: Seq<(Seq<char>, Scalar)> = Seq::empty();
    assert(given + read =~= given);
    while more
        invariant
            pos <= i <= chars.len(),
            names.len() == values.len(),
            paired(texts(names@), values_view(values@)) == given + read,
            assignments_at(chars@, pos as int) == after_pairs(
                read,
                assignments_at(chars@, i as int),
            ),
            !more ==> assignments_at(chars@, i as int) == Some(
                (Seq::<(Seq<char>, Scalar)>::empty(), i as int),
            ),
        decreases chars.len() - i + (if more { 1int } else { 0int }),
    {
        more = false;
        if found_at(chars, i, ", ") {
            proof {
                reveal_strlit(", ");
            }
            match scan_assignment(chars, i + 2) {
                Some((name, value, end)) => {
                    let ghost rest = assignments_at(chars@, end as int);
                    let ghost one = (name@, value@);
                    let ghost before = paired(
                        texts(names@),
                        values_view(values@),
                    );
                    names.push(name);
                    values.push(value);
                    proof {
                        assert(paired(
                            texts(names@),
                            values_view(values@),
                        ) =~= before.push(one));
                        assert(given + read.push(one) =~= (given + read).push(one));
                        if rest is Some {
                            assert(read + (seq![one] + rest.unwrap().0) =~= read.push(one)
                                + rest.unwrap().0);
                        }
                        read = read.push(one);
                    }
                    i = end;
                    more = true;
                },
                None => {
                    return None;
                },
            }
        }
    }
    assert(read + Seq::<(Seq<char>, Scalar)>::empty() =~= read);
    Some(i)
}

fn scan_delete(chars: &Vec<char>) -> (found: Option<(String, i64)>)
    requires
        starts_at(chars@, 0, "DELETE FROM "@),
    ensures
        match found {
            Some((table, key)) => delete_at(chars@) == Some(
                Statement::Delete { table: table@, key: key as int },
            ),
            None => delete_at(chars@) is None,
        },
{
    proof {
        reveal_strlit("DELETE FROM ");
        reveal_strlit(" WHERE id=");
    }
    let table_end = scan_identifier(chars, 12);
    if table_end == 12 || !found_at(chars, table_end, " WHERE id=") {
        return None;
    }
    match scan_integer(chars, table_end + 10) {
        Some((key, end)) => if end == chars.len() {
            Some((slice_text(chars, 12, table_end), key))
        } else {
            None
        },
        None => None,
    }
}

fn scan_insert(chars: &Vec<char>) -> (found: Option<(String, i64, Vec<String>, Vec<SqlValue>)>)
    requires
        starts_at(chars@, 0, "INSERT INTO "@),
    ensures
        match found {
            Some((table, key, columns, values)) => insert_at(chars@) == Some(
                Statement::Insert {
                    table: table@,
                    key: key as int,
                    columns: texts(columns@),
                    values: values_view(values@),
                },
            ),
            None => insert_at(chars@) is None,
        },
{
    proof {
        reveal_strlit("INSERT INTO ");
        reveal_strlit(" (id");
        reveal_strlit(") VALUES (");
        reveal_strlit(");");
    }
    let table_end = scan_identifier(chars, 12);
    if table_end == 12 || !found_at(chars, table_end, " (id") {
        return None;
    }
    let (columns, names_end) = scan_names(chars, table_end + 4);
    if !found_at(chars, names_end, ") VALUES (") {
        return None;
    }
    let (key, key_end) = match scan_integer(chars, names_end + 10) {
        Some(found) => found,
        None => {
            return None;
        },
    };
    let (values, values_end) = match scan_values(chars, key_end) {
        Some(found) => found,
        None => {
            return None;
        },
    };
    if !found_at(chars, values_end, ");") || values_end + 2 != chars.len() {
        return None;
    }
    Some((slice_text(chars, 12, table_end), key, columns, values))
}

fn scan_update(chars: &Vec<char>) -> (found: Option<(String, i64, Vec<String>, Vec<SqlValue>)>)
    requires
        starts_at(chars@, 0, "UPDATE "@),
    ensures
        match found {
            Some((table, key, columns, values)) => update_at(chars@) == Some(
                Statement::Update {
                    table: table@,
                    key: key as int,
                    columns: texts(columns@),
                    values: values_view(values@),
                },
            ),
            None => update_at(chars@) is None,
        },
{
    proof {
        reveal_strlit("UPDATE ");
        reveal_strlit(" SET ");
        reveal_strlit(" WHERE id=");
    }
    let table_end = scan_identifier(chars, 7);
    if table_end == 7 || !found_at(chars, table_end, " SET ") {
        return None;
    }
    let (name, value, first_end) = match scan_assignment(chars, table_end + 5) {
        Some(found) => found,
        None => {
            return None;
        },
    };
    let ghost first = (name@, value@);
    let mut columns: Vec<String> = Vec::new();
    let mut values: Vec<SqlValue> = Vec::new();
    columns.push(name);
    values.push(value);
    assert(paired(texts(columns@), values_view(values@)) =~= seq![
        first,
    ]);
    let last_end = match scan_assignments(chars, first_end, &mut columns, &mut values) {
        Some(end) => end,
        None => {
            return None;
        },
    };
    if !found_at(chars, last_end, " WHERE id=") {
        return None;
    }
    match scan_integer(chars, last_end + 10) {
        Some((key, end)) => if end == chars.len() {
            proof {
                let pairs = seq![first] + assignments_at(chars@, first_end as int).unwrap().0;
                let both = paired(
                    texts(columns@),
                    values_view(values@),
                );
                assert(both == pairs);
                assert(pair_names(both) =~= texts(columns@));
                assert(pair_values(both) =~= values_view(values@));
            }
            Some((slice_text(chars, 7, table_end), key, columns, values))
        } else {
            None
        },
        None => None,
    }
}

/// No two statements are written alike.
pub proof fn lemma_render_is_injective(left: Statement, right: Statement)
    requires
        left.well_formed(),
        right.well_formed(),
        render(left) == render(right),
    ensures
        left == right,
{
    lemma_statement_at(left);
    lemma_statement_at(right);
}

/// The text of a well-formed statement is read as that statement, whatever
/// its values hold: the same kind, the same table and key, the same
/// columns, and every value as it was.
pub proof fn lemma_read_rendered(statement: Statement)
    requires
        statement.well_formed(),
    ensures
        read_statement(render(statement)) == Some(statement),
{
    reveal(read_statement);
    let text = render(statement);
    let chosen = choose|other: Statement| other.well_formed() && #[trigger] render(other) == text;
    lemma_render_is_injective(chosen, statement);
}

/// What a text is read as is a well-formed statement, and the text is its
/// text.
pub proof fn lemma_read_is_written(text: Seq<char>)
    ensures
        read_statement(text) matches Some(statement) ==> statement.well_formed() && render(
            statement,
        ) == text,
{
    reveal(read_statement);
}

/// The statement that a text writes.
///
/// The result is a statement exactly when the text is the text of a
/// well-formed statement, and then it is that statement: nothing else is
/// read as a statement, and no two statements share a text.
pub fn parse_statement(text: &str) -> (parsed: Option<InverseStatement>)
    ensures
        match parsed {
            Some(statement) => statement@.well_formed() && render(statement@)
                == text@ && read_statement(text@) == Some(statement@),
            None => read_statement(text@) is None && forall|statement: Statement|
                statement.well_formed() ==> #[trigger] render(statement)
                    != text@,
        },
{
    let chars = to_chars(text);
    let candidate = if found_at(&chars, 0, "DELETE FROM ") {
        match scan_delete(&chars) {
            Some((table, key)) => InverseStatement::new(
                StatementKind::Delete,
                table.as_str(),
                key,
                Vec::new(),
                Vec::new(),
            ),
            None => None,
        }
    } else if found_at(&chars, 0, "INSERT INTO ") {
        match scan_insert(&chars) {
            Some((table, key, columns, values)) => InverseStatement::new(
                StatementKind::Insert,
                table.as_str(),
                key,
                columns,
                values,
            ),
            None => None,
        }
    } else if found_at(&chars, 0, "UPDATE ") {
        match scan_update(&chars) {
            Some((table, key, columns, values)) => InverseStatement::new(
                StatementKind::Update,
                table.as_str(),
                key,
                columns,
                values,
            ),
            None => None,
        }
    } else {
        None
    };
    // What was read is a statement only if it is written as the text is.
    let ghost read = statement_at(text@);
    assert(candidate matches Some(c) ==> read == Some(c@));
    assert(candidate is None ==> (read matches Some(r) ==> !r.well_formed()));
    proof {
        reveal(read_statement);
    }
    match candidate {
        Some(statement) => {
            let again = statement.to_sql();
            if same_text(again.as_str(), text) {
                proof {
                    lemma_read_rendered(statement@);
                }
                Some(statement)
            } else {
                assert forall|other: Statement| other.well_formed() implies 
                    #[trigger] render(other) != text@ by {
                    if render(other) == text@ {
                        lemma_statement_at(other);
                    }
                }
                None
            }
        },
        None => {
            assert forall|other: Statement| other.well_formed() implies 
                #[trigger] render(other) != text@ by {
                if render(other) == text@ {
                    lemma_statement_at(other);
                }
            }
            None
        },
    }
}

/// The value that the whole of a text is scanned as.
spec fn whole_value(text: Seq<char>) -> Option<Scalar> {
    match value_at(text, 0) {
        Some((value, end)) => if end == text.len() {
            Some(value)
        } else {
            None
        },
        None => None,
    }
}

/// A well-formed value is scanned back from what it is written as.
proof fn lemma_whole_value(value: Scalar)
    requires
        value.well_formed(),
    ensures
        whole_value(quote(value)) == Some(value),
{
    lemma_starts_at_self(quote(value));
    lemma_value_at(quote(value), 0, value);
}

/// The value that a text writes: the well-formed value that is written as
/// the text, if there is one. There is never more than one.
#[verifier::opaque]
pub open spec fn read_value(text: Seq<char>) -> Option<Scalar> {
    if exists|value: Scalar| value.well_formed() && #[trigger] quote(value) == text {
        Some(choose|value: Scalar| value.well_formed() && #[trigger] quote(value) == text)
    } else {
        None
    }
}

/// No two values are written alike.
pub proof fn lemma_quote_is_injective(left: Scalar, right: Scalar)
    requires
        left.well_formed(),
        right.well_formed(),
        quote(left) == quote(right),
    ensures
        left == right,
{
    lemma_whole_value(left);
    lemma_whole_value(right);
}

/// Escaping loses nothing: whatever a value holds, a single quote inside a
/// text, a missing value, a negative number or one with a fraction, the text
/// that it is written as is read back as that value.
pub proof fn lemma_quote_round_trip(value: Scalar)
    requires
        value.well_formed(),
    ensures
        read_value(quote(value)) == Some(value),
{
    reveal(read_value);
    let text = quote(value);
    let chosen = choose|other: Scalar| other.well_formed() && #[trigger] quote(other) == text;
    lemma_quote_is_injective(chosen, value);
}

/// The value that a text writes, if the whole text is one value as it is
/// written into a statement: `NULL`, a numeral, or a text between single
/// quotes with its own single quotes doubled.
///
/// The result is a value exactly when the text is what a value is written
/// as, and then it is that value.
pub fn parse_value(text: &str) -> (parsed: Option<SqlValue>)
    ensures
        match parsed {
            Some(value) => value@.well_formed() && quote(value@) == text@ && read_value(text@)
                == Some(value@),
            None => read_value(text@) is None && forall|value: Scalar|
                value.well_formed() ==> #[trigger] quote(value) != text@,
        },
{
    let chars = to_chars(text);
    let found = match scan_value(&chars, 0) {
        Some((value, end)) => if end == chars.len() {
            Some(value)
        } else {
            None
        },
        None => None,
    };
    assert(match found {
        Some(value) => whole_value(text@) == Some(value@),
        None => whole_value(text@) is None,
    });
    proof {
        reveal(read_value);
    }
    match found {
        Some(value) => {
            let again = quoted(&value);
            if same_text(again.as_str(), text) {
                match &value {
                    SqlValue::Real(d) => {
                        proof {
                            use_type_invariant(d);
                        }
                    },
                    _ => {},
                }
                proof {
                    lemma_quote_round_trip(value@);
                }
                Some(value)
            } else {
                assert forall|other: Scalar| other.well_formed() implies #[trigger] quote(other)
                    != text@ by {
                    if quote(other) == text@ {
                        lemma_whole_value(other);
                    }
                }
                None
            }
        },
        None => {
            assert forall|other: Scalar| other.well_formed() implies #[trigger] quote(other)
                != text@ by {
                if quote(other) == text@ {
                    lemma_whole_value(other);
                }
            }
            None
        },
    }
}

} // verus!
