//! Column values and the way they are written into a statement.
//!
//! A value embedded in a logged statement is written as the database's
//! `quote()` function writes it: `NULL` for a missing value, a bare numeral for
//! a number, and a text between single quotes with each single quote of the
//! text doubled.

use vstd::prelude::*;
use vstd::string::*;
use crate::text::{decimal, push_char, push_decimal, to_chars};

verus! {

/// A column value, as a mathematical value. A real number is held by its
/// numeral, so that nothing is ever rounded.
pub enum Scalar {
    Null,
    Integer(int),
    Real(Seq<char>),
    Text(Seq<char>),
}

/// Whether `c` is one of the ten decimal digits.
pub open spec fn is_digit(c: char) -> bool {
    '0' <= c <= '9'
}

/// The first position at or after `pos` that holds no digit.
pub open spec fn digits_end(s: Seq<char>, pos: int) -> int
    decreases s.len() - pos,
{
    if 0 <= pos < s.len() && is_digit(s[pos]) {
        digits_end(s, pos + 1)
    } else {
        pos
    }
}

/// The position after a minus sign at `pos`, or `pos` if there is none.
pub open spec fn sign_end(s: Seq<char>, pos: int) -> int {
    if 0 <= pos < s.len() && s[pos] == '-' {
        pos + 1
    } else {
        pos
    }
}

/// The position after a fraction at `pos`, a point and one digit or more, or
/// `pos` if there is none.
pub open spec fn fraction_end(s: Seq<char>, pos: int) -> int {
    if 0 <= pos < s.len() && s[pos] == '.' && digits_end(s, pos + 1) > pos + 1 {
        digits_end(s, pos + 1)
    } else {
        pos
    }
}

/// The position after the sign of an exponent at `pos`, or `pos` if there
/// is none.
pub open spec fn exponent_sign_end(s: Seq<char>, pos: int) -> int {
    if 0 <= pos < s.len() && (s[pos] == '-' || s[pos] == '+') {
        pos + 1
    } else {
        pos
    }
}

/// The position after an exponent at `pos`, the letter `e`, an optional
/// sign and one digit or more, or `pos` if there is none.
pub open spec fn exponent_end(s: Seq<char>, pos: int) -> int {
    if 0 <= pos < s.len() && (s[pos] == 'e' || s[pos] == 'E') && digits_end(
        s,
        exponent_sign_end(s, pos + 1),
    ) > exponent_sign_end(s, pos + 1) {
        digits_end(s, exponent_sign_end(s, pos + 1))
    } else {
        pos
    }
}

/// The position after the longest numeral that starts at `pos`: an optional
/// minus sign, digits, an optional fraction, an optional exponent. It is
/// `pos` where no numeral starts.
pub open spec fn numeral_end(s: Seq<char>, pos: int) -> int {
    let whole = digits_end(s, sign_end(s, pos));
    if whole > sign_end(s, pos) {
        exponent_end(s, fraction_end(s, whole))
    } else {
        pos
    }
}

/// An integer numeral: an optional minus sign and one digit or more.
pub open spec fn is_integer_numeral(s: Seq<char>) -> bool {
    &&& s.len() > 0
    &&& digits_end(s, sign_end(s, 0)) == s.len()
    &&& sign_end(s, 0) < s.len()
}

/// A numeral of a real number: an optional minus sign, one digit or more,
/// then a fraction, an exponent, or both, as in `-0.06`, `5.0` or `1e21`.
pub open spec fn is_decimal(s: Seq<char>) -> bool {
    &&& s.len() > 0
    &&& numeral_end(s, 0) == s.len()
    &&& digits_end(s, sign_end(s, 0)) < s.len()
}

/// The number that a digit stands for.
pub open spec fn digit_value(c: char) -> int {
    if c == '1' {
        1
    } else if c == '2' {
        2
    } else if c == '3' {
        3
    } else if c == '4' {
        4
    } else if c == '5' {
        5
    } else if c == '6' {
        6
    } else if c == '7' {
        7
    } else if c == '8' {
        8
    } else if c == '9' {
        9
    } else {
        0
    }
}

/// The number that the digits of `s` from `from` up to `to` write.
pub open spec fn digits_value(s: Seq<char>, from: int, to: int) -> int
    decreases to - from,
{
    if from >= to {
        0
    } else {
        digits_value(s, from, to - 1) * 10 + digit_value(s[to - 1])
    }
}

/// The integer that `s` writes, if `s` is an integer numeral whose value fits
/// in 64 bits.
pub open spec fn integer_value(s: Seq<char>) -> Option<int> {
    let start = sign_end(s, 0);
    let magnitude = digits_value(s, start, s.len() as int);
    let number = if start > 0 {
        -magnitude
    } else {
        magnitude
    };
    if is_integer_numeral(s) && i64::MIN <= number <= i64::MAX {
        Some(number)
    } else {
        None
    }
}

/// The numeral by which a number written as `s` is held as a real number:
/// `s` itself where it has a fraction or an exponent, `s` with the fraction
/// `.0` where it is an integer numeral, and none where `s` is no numeral.
pub open spec fn real_numeral(s: Seq<char>) -> Option<Seq<char>> {
    if is_decimal(s) {
        Some(s)
    } else if is_integer_numeral(s) {
        Some(s + ".0"@)
    } else {
        None
    }
}

impl Scalar {
    /// An integer fits in 64 bits, and a real number is a decimal numeral.
    pub open spec fn well_formed(self) -> bool {
        match self {
            Scalar::Null => true,
            Scalar::Integer(i) => i64::MIN <= i <= i64::MAX,
            Scalar::Real(numeral) => is_decimal(numeral),
            Scalar::Text(_) => true,
        }
    }
}

/// What one character of a text becomes between single quotes: a single
/// quote is doubled, every other character stands for itself.
pub open spec fn escaped_char(c: char) -> Seq<char> {
    if c == '\'' {
        seq!['\'', '\'']
    } else {
        seq![c]
    }
}

/// A text with each of its single quotes doubled.
pub open spec fn escaped(t: Seq<char>) -> Seq<char>
    decreases t.len(),
{
    if t.len() == 0 {
        Seq::empty()
    } else {
        escaped_char(t[0]) + escaped(t.skip(1))
    }
}

/// A text as a string literal: between single quotes, its own single quotes
/// doubled.
pub open spec fn string_literal(t: Seq<char>) -> Seq<char> {
    seq!['\''] + escaped(t) + seq!['\'']
}

/// A value as it is written into a statement.
pub open spec fn quote(v: Scalar) -> Seq<char> {
    match v {
        Scalar::Null => "NULL"@,
        Scalar::Integer(i) => decimal(i),
        Scalar::Real(numeral) => numeral,
        Scalar::Text(t) => string_literal(t),
    }
}

/// Escaping goes character by character, so it can be done from the left.
proof fn lemma_escaped_push(t: Seq<char>, c: char)
    ensures
        escaped(t.push(c)) == escaped(t) + escaped_char(c),
    decreases t.len(),
{
    if t.len() == 0 {
        assert(t.push(c).skip(1) == Seq::<char>::empty());
        assert(escaped(t.push(c).skip(1)) == Seq::<char>::empty());
        assert(escaped(t.push(c)) == escaped_char(c) + Seq::<char>::empty());
    } else {
        lemma_escaped_push(t.skip(1), c);
        assert(t.push(c).skip(1) == t.skip(1).push(c));
        assert(t.push(c)[0] == t[0]);
        assert(escaped_char(t[0]) + (escaped(t.skip(1)) + escaped_char(c)) == (escaped_char(t[0])
            + escaped(t.skip(1))) + escaped_char(c));
    }
}

/// Digits stay digits when more text follows them.
proof fn lemma_digits_end_prefix(s: Seq<char>, rest: Seq<char>, pos: int)
    requires
        0 <= pos <= s.len(),
        digits_end(s, pos) == s.len(),
        rest.len() > 0 ==> !is_digit(rest[0]),
    ensures
        digits_end(s + rest, pos) == s.len(),
    decreases s.len() - pos,
{
    if pos < s.len() {
        assert((s + rest)[pos] == s[pos]);
        lemma_digits_end_prefix(s, rest, pos + 1);
    } else if rest.len() > 0 {
        assert((s + rest)[pos] == rest[0]);
    }
}

/// The end of a run of digits lies between its start and the end of the
/// text.
pub(crate) proof fn lemma_digits_end_bounds(s: Seq<char>, pos: int)
    requires
        0 <= pos <= s.len(),
    ensures
        pos <= digits_end(s, pos) <= s.len(),
    decreases s.len() - pos,
{
    if pos < s.len() && is_digit(s[pos]) {
        lemma_digits_end_bounds(s, pos + 1);
    }
}

/// An integer numeral followed by `.0` is the numeral of a real number.
proof fn lemma_integer_with_fraction(s: Seq<char>)
    requires
        is_integer_numeral(s),
    ensures
        is_decimal(s + ".0"@),
{
    reveal_strlit(".0");
    let t = s + ".0"@;
    let start = sign_end(s, 0);
    assert(t[0] == s[0]);
    assert(sign_end(t, 0) == start);
    lemma_digits_end_prefix(s, ".0"@, start);
    let whole = s.len() as int;
    assert(t[whole] == '.');
    assert(t[whole + 1] == '0');
    assert(digits_end(t, whole + 2) == whole + 2);
    assert(digits_end(t, whole + 1) == whole + 2);
    assert(fraction_end(t, whole) == whole + 2);
    assert(exponent_end(t, whole + 2) == whole + 2);
}

/// A real number, held by its decimal numeral.
#[derive(Debug, PartialEq, Eq)]
pub struct Decimal {
    numeral: String,
}

impl View for Decimal {
    type V = Seq<char>;

    closed spec fn view(&self) -> Seq<char> {
        self.numeral@
    }
}

/// The first position at or after `pos` that holds no digit.
pub(crate) fn scan_numeral_digits(chars: &Vec<char>, pos: usize) -> (end: usize)
    requires
        pos <= chars.len(),
    ensures
        end == digits_end(chars@, pos as int),
        pos <= end <= chars.len(),
{
    scan_digits(chars, pos)
}

fn scan_digits(chars: &Vec<char>, pos: usize) -> (end: usize)
    requires
        pos <= chars.len(),
    ensures
        end == digits_end(chars@, pos as int),
        pos <= end <= chars.len(),
    decreases chars.len() - pos,
{
    if pos < chars.len() && '0' <= chars[pos] && chars[pos] <= '9' {
        scan_digits(chars, pos + 1)
    } else {
        pos
    }
}

/// The position after the longest numeral that starts at `pos`.
pub(crate) fn scan_numeral(chars: &Vec<char>, pos: usize) -> (end: usize)
    requires
        pos <= chars.len(),
    ensures
        end == numeral_end(chars@, pos as int),
        pos <= end <= chars.len(),
{
    let start: usize = if pos < chars.len() && chars[pos] == '-' {
        pos + 1
    } else {
        pos
    };
    let whole = scan_digits(chars, start);
    if whole == start {
        return pos;
    }
    let mut end = whole;
    if end < chars.len() && chars[end] == '.' {
        let fraction = scan_digits(chars, end + 1);
        if fraction > end + 1 {
            end = fraction;
        }
    }
    if end < chars.len() && (chars[end] == 'e' || chars[end] == 'E') {
        let signed: usize = if end + 1 < chars.len() && (chars[end + 1] == '-' || chars[end + 1]
            == '+') {
            end + 2
        } else {
            end + 1
        };
        let exponent = scan_digits(chars, signed);
        if exponent > signed {
            end = exponent;
        }
    }
    end
}

/// Whether the characters make the numeral of a real number.
pub fn check_decimal(chars: &Vec<char>) -> (ok: bool)
    ensures
        ok == is_decimal(chars@),
{
    if chars.len() == 0 {
        return false;
    }
    let start: usize = if chars[0] == '-' {
        1
    } else {
        0
    };
    let whole = scan_digits(chars, start);
    scan_numeral(chars, 0) == chars.len() && whole < chars.len()
}

/// Whether the characters make an integer numeral.
pub fn check_integer_numeral(chars: &Vec<char>) -> (ok: bool)
    ensures
        ok == is_integer_numeral(chars@),
{
    if chars.len() == 0 {
        return false;
    }
    let start: usize = if chars[0] == '-' {
        1
    } else {
        0
    };
    start < chars.len() && scan_digits(chars, start) == chars.len()
}

impl Decimal {
    /// What holds of every real number in hand: its numeral is one.
    #[verifier::type_invariant]
    pub open spec fn valid(self) -> bool {
        is_decimal(self@)
    }

    /// The real number that a number written as `numeral` is held as: the
    /// numeral as it stands where it has a fraction or an exponent, with the
    /// fraction `.0` where it is an integer numeral.
    ///
    /// `None` exactly when `numeral` is no numeral.
    pub fn from_number(numeral: &str) -> (made: Option<Decimal>)
        ensures
            match made {
                Some(d) => real_numeral(numeral@) == Some(d@),
                None => real_numeral(numeral@) is None,
            },
    {
        let chars = to_chars(numeral);
        if check_decimal(&chars) {
            Some(Decimal { numeral: numeral.to_owned() })
        } else if check_integer_numeral(&chars) {
            let mut text = numeral.to_owned();
            text.append(".0");
            proof {
                lemma_integer_with_fraction(numeral@);
            }
            Some(Decimal { numeral: text })
        } else {
            None
        }
    }

    /// The real number that `numeral` writes, if it is the numeral of a real
    /// number, such as `-0.06`, `5.0` or `1e21`.
    pub fn parse(numeral: &str) -> (made: Option<Decimal>)
        ensures
            match made {
                Some(d) => d@ == numeral@ && is_decimal(numeral@),
                None => !is_decimal(numeral@),
            },
    {
        let chars = to_chars(numeral);
        if check_decimal(&chars) {
            Some(Decimal { numeral: numeral.to_owned() })
        } else {
            None
        }
    }

    /// The numeral.
    pub fn as_str(&self) -> (numeral: &str)
        ensures
            numeral@ == self@,
            is_decimal(self@),
    {
        proof {
            use_type_invariant(self);
        }
        self.numeral.as_str()
    }
}

impl Clone for Decimal {
    fn clone(&self) -> (copy: Decimal)
        ensures
            copy@ == self@,
    {
        proof {
            use_type_invariant(self);
        }
        Decimal { numeral: self.numeral.clone() }
    }
}

/// A column value.
#[derive(Debug, PartialEq, Eq)]
pub enum SqlValue {
    Null,
    Integer(i64),
    Real(Decimal),
    Text(String),
}

impl View for SqlValue {
    type V = Scalar;

    open spec fn view(&self) -> Scalar {
        match self {
            SqlValue::Null => Scalar::Null,
            SqlValue::Integer(i) => Scalar::Integer(*i as int),
            SqlValue::Real(d) => Scalar::Real(d@),
            SqlValue::Text(t) => Scalar::Text(t@),
        }
    }
}

impl Clone for SqlValue {
    fn clone(&self) -> (copy: SqlValue)
        ensures
            copy@ == self@,
    {
        match self {
            SqlValue::Null => SqlValue::Null,
            SqlValue::Integer(i) => SqlValue::Integer(*i),
            SqlValue::Real(d) => SqlValue::Real(d.clone()),
            SqlValue::Text(t) => SqlValue::Text(t.clone()),
        }
    }
}

/// The views of the values of a vector, in order.
pub open spec fn values_view(values: Seq<SqlValue>) -> Seq<Scalar> {
    Seq::new(values.len(), |i: int| values[i]@)
}

/// Appends `text` to `out` with each single quote doubled.
pub fn push_escaped(out: &mut String, text: &str)
    ensures
        final(out)@ == old(out)@ + escaped(text@),
{
    let ghost before = out@;
    for c in it: text.chars()
        invariant
            it.seq() == text@,
            out@ == before + escaped(text@.take(it.index())),
    {
        proof {
            lemma_escaped_push(text@.take(it.index()), c);
            assert(text@.take(it.index() + 1) == text@.take(it.index()).push(c));
        }
        if c == '\'' {
            push_char(out, '\'');
        }
        push_char(out, c);
    }
    proof {
        assert(text@.take(text@.len() as int) == text@);
    }
}

/// Appends `text` to `out` as a string literal.
pub fn push_string_literal(out: &mut String, text: &str)
    ensures
        final(out)@ == old(out)@ + string_literal(text@),
{
    push_char(out, '\'');
    push_escaped(out, text);
    push_char(out, '\'');
}

/// Appends `value` to `out` as it is written into a statement.
pub fn push_quoted(out: &mut String, value: &SqlValue)
    ensures
        final(out)@ == old(out)@ + quote(value@),
{
    match value {
        SqlValue::Null => out.append("NULL"),
        SqlValue::Integer(i) => push_decimal(out, *i),
        SqlValue::Real(d) => out.append(d.as_str()),
        SqlValue::Text(t) => push_string_literal(out, t.as_str()),
    }
}

/// The value as it is written into a statement.
pub fn quoted(value: &SqlValue) -> (written: String)
    ensures
        written@ == quote(value@),
{
    let mut written = String::new();
    push_quoted(&mut written, value);
    written
}

} // verus!
