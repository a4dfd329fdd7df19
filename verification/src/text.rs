//! Text helpers: comparison, joining, and decimal numerals.

use vstd::prelude::*;
use vstd::string::*;

verus! {

/// Appends one character to `text`.
///
/// Calls `String::push` of the standard library, which appends the given
/// character to the end of the string.
#[verifier::external_body]
pub(crate) fn push_char(text: &mut String, c: char)
    ensures
        final(text)@ == old(text)@.push(c),
{
    text.push(c)
}

/// Each of `parts` written after a copy of `sep`: `sep`, the first part,
/// `sep`, the second part, and so on.
pub open spec fn each_after(sep: Seq<char>, parts: Seq<Seq<char>>) -> Seq<char>
    decreases parts.len(),
{
    if parts.len() == 0 {
        Seq::empty()
    } else {
        sep + parts[0] + each_after(sep, parts.skip(1))
    }
}

/// `parts` written one after another.
pub open spec fn concat(parts: Seq<Seq<char>>) -> Seq<char> {
    each_after(Seq::empty(), parts)
}

/// `parts` written one after another with `sep` between neighbours.
pub open spec fn join(parts: Seq<Seq<char>>, sep: Seq<char>) -> Seq<char> {
    if parts.len() == 0 {
        Seq::empty()
    } else {
        parts[0] + each_after(sep, parts.skip(1))
    }
}

/// One more part at the end adds `sep` and that part at the end.
pub(crate) proof fn lemma_each_after_push(sep: Seq<char>, parts: Seq<Seq<char>>, last: Seq<char>)
    ensures
        each_after(sep, parts.push(last)) == each_after(sep, parts) + sep + last,
    decreases parts.len(),
{
    if parts.len() == 0 {
        assert(parts.push(last).skip(1) == Seq::<Seq<char>>::empty());
        assert(each_after(sep, parts.push(last).skip(1)) == Seq::<char>::empty());
        assert(each_after(sep, parts.push(last)) == sep + last + Seq::<char>::empty());
    } else {
        lemma_each_after_push(sep, parts.skip(1), last);
        assert(parts.push(last).skip(1) == parts.skip(1).push(last));
        assert(parts.push(last)[0] == parts[0]);
        assert(sep + parts[0] + (each_after(sep, parts.skip(1)) + sep + last) == sep + parts[0]
            + each_after(sep, parts.skip(1)) + sep + last);
    }
}

/// One more part at the end adds that part at the end.
pub(crate) proof fn lemma_concat_push(parts: Seq<Seq<char>>, last: Seq<char>)
    ensures
        concat(parts.push(last)) == concat(parts) + last,
{
    lemma_each_after_push(Seq::empty(), parts, last);
    assert(concat(parts) + Seq::<char>::empty() + last == concat(parts) + last);
}

/// One more part at the end of a list that is not empty adds `sep` and that
/// part at the end of the joined text.
pub(crate) proof fn lemma_join_push(parts: Seq<Seq<char>>, sep: Seq<char>, last: Seq<char>)
    ensures
        join(parts.push(last), sep) == if parts.len() == 0 {
            last
        } else {
            join(parts, sep) + sep + last
        },
{
    if parts.len() == 0 {
        assert(parts.push(last).skip(1) == Seq::<Seq<char>>::empty());
        assert(each_after(sep, parts.push(last).skip(1)) == Seq::<char>::empty());
        assert(last + Seq::<char>::empty() == last);
    } else {
        lemma_each_after_push(sep, parts.skip(1), last);
        assert(parts.push(last).skip(1) == parts.skip(1).push(last));
        assert(parts.push(last)[0] == parts[0]);
        assert(parts[0] + (each_after(sep, parts.skip(1)) + sep + last) == parts[0] + each_after(
            sep,
            parts.skip(1),
        ) + sep + last);
    }
}

/// The views of the strings of a vector, in order.
pub open spec fn texts(parts: Seq<String>) -> Seq<Seq<char>> {
    Seq::new(parts.len(), |i: int| parts[i]@)
}

/// Whether two strings hold the same characters.
pub fn same_text(a: &str, b: &str) -> (same: bool)
    ensures
        same == (a@ == b@),
{
    let left = a.to_owned();
    let right = b.to_owned();
    left == right
}

/// The characters of `text`, in order.
pub fn to_chars(text: &str) -> (chars: Vec<char>)
    ensures
        chars@ == text@,
{
    let mut chars: Vec<char> = Vec::new();
    for c in it: text.chars()
        invariant
            it.seq() == text@,
            chars@ == text@.take(it.index()),
    {
        chars.push(c);
        proof {
            assert(text@.take(it.index() + 1) == text@.take(it.index()).push(c));
        }
    }
    proof {
        assert(text@.take(text@.len() as int) == text@);
    }
    chars
}

/// A copy of each string of `parts`, in order.
pub fn copy_texts(parts: &Vec<String>) -> (copies: Vec<String>)
    ensures
        texts(copies@) == texts(parts@),
        copies.len() == parts.len(),
{
    let mut copies: Vec<String> = Vec::new();
    let mut i: usize = 0;
    while i < parts.len()
        invariant
            i <= parts.len(),
            copies.len() == i,
            forall|k: int| 0 <= k < i ==> (#[trigger] copies[k])@ == parts[k]@,
        decreases parts.len() - i,
    {
        copies.push(parts[i].clone());
        i += 1;
    }
    assert(texts(copies@) =~= texts(parts@));
    copies
}

/// The strings of `parts` joined by `sep`.
pub fn join_texts(parts: &Vec<String>, sep: &str) -> (joined: String)
    ensures
        joined@ == join(texts(parts@), sep@),
{
    let mut joined = String::new();
    let mut i: usize = 0;
    while i < parts.len()
        invariant
            i <= parts.len(),
            joined@ == join(texts(parts@).take(i as int), sep@),
        decreases parts.len() - i,
    {
        if i > 0 {
            joined.append(sep);
        }
        joined.append(parts[i].as_str());
        proof {
            let all = texts(parts@);
            lemma_join_push(all.take(i as int), sep@, parts[i as int]@);
            assert(all.take(i + 1) == all.take(i as int).push(parts[i as int]@));
        }
        i += 1;
    }
    proof {
        assert(texts(parts@).take(parts.len() as int) == texts(parts@));
    }
    joined
}

/// The character that stands for a decimal digit.
pub open spec fn digit_char(d: int) -> char {
    if d == 0 {
        '0'
    } else if d == 1 {
        '1'
    } else if d == 2 {
        '2'
    } else if d == 3 {
        '3'
    } else if d == 4 {
        '4'
    } else if d == 5 {
        '5'
    } else if d == 6 {
        '6'
    } else if d == 7 {
        '7'
    } else if d == 8 {
        '8'
    } else {
        '9'
    }
}

/// The decimal numeral of a natural number, without leading zeros.
pub open spec fn decimal_digits(n: nat) -> Seq<char>
    decreases n,
{
    if n < 10 {
        seq![digit_char(n as int)]
    } else {
        decimal_digits(n / 10).push(digit_char((n % 10) as int))
    }
}

/// The decimal numeral of an integer: a minus sign for negative numbers,
/// then the digits of the magnitude.
pub open spec fn decimal(i: int) -> Seq<char> {
    if i < 0 {
        seq!['-'] + decimal_digits((-i) as nat)
    } else {
        decimal_digits(i as nat)
    }
}

fn digit_of(d: u64) -> (c: char)
    requires
        d < 10,
    ensures
        c == digit_char(d as int),
{
    if d == 0 {
        '0'
    } else if d == 1 {
        '1'
    } else if d == 2 {
        '2'
    } else if d == 3 {
        '3'
    } else if d == 4 {
        '4'
    } else if d == 5 {
        '5'
    } else if d == 6 {
        '6'
    } else if d == 7 {
        '7'
    } else if d == 8 {
        '8'
    } else {
        '9'
    }
}

fn push_digits(out: &mut String, n: u64)
    ensures
        final(out)@ == old(out)@ + decimal_digits(n as nat),
    decreases n,
{
    if n >= 10 {
        push_digits(out, n / 10);
    }
    push_char(out, digit_of(n % 10));
}

/// Appends the decimal numeral of `i` to `out`.
pub fn push_decimal(out: &mut String, i: i64)
    ensures
        final(out)@ == old(out)@ + decimal(i as int),
{
    if i < 0 {
        push_char(out, '-');
        let wide: i128 = i as i128;
        let magnitude: u64 = (-wide) as u64;
        push_digits(out, magnitude);
    } else {
        push_digits(out, i as u64);
    }
}

} // verus!
