//! Byte-level pieces of the level text format: finding separators, splitting
//! into lines and fields, and reading decimal coordinates.

use vstd::prelude::*;
use vstd::slice::slice_subrange;

verus! {

/// Largest whole-pixel part a coordinate can have and still fit the grid.
pub const MAX_WHOLE_PIXELS: u64 = 2_147_483;

/// The byte `\n`.
pub const LINE_FEED: u8 = 10;

/// The byte `\r`.
pub const CARRIAGE_RETURN: u8 = 13;

/// The byte of a space.
pub const SPACE: u8 = 32;

/// The byte `+`.
pub const PLUS: u8 = 43;

/// The byte `,`.
pub const COMMA: u8 = 44;

/// The byte `-`.
pub const MINUS: u8 = 45;

/// The byte `.`.
pub const DECIMAL_POINT: u8 = 46;

/// The byte `0`.
pub const DIGIT_ZERO: u8 = 48;

/// The byte `9`.
pub const DIGIT_NINE: u8 = 57;

/// Index of the first byte equal to `b`, or the length when there is none.
pub open spec fn find(s: Seq<u8>, b: u8) -> int
    decreases s.len(),
{
    if s.len() == 0 {
        0
    } else if s[0] == b {
        0
    } else {
        1 + find(s.skip(1), b)
    }
}

/// `find` stays within the text, no byte before it is `b`, and the byte at
/// it is `b` unless it is the length.
pub proof fn lemma_find(s: Seq<u8>, b: u8)
    ensures
        0 <= find(s, b) <= s.len(),
        forall|j: int| 0 <= j < find(s, b) ==> #[trigger] s[j] != b,
        find(s, b) < s.len() ==> s[find(s, b)] == b,
    decreases s.len(),
{
    if s.len() > 0 && s[0] != b {
        let rest = s.skip(1);
        lemma_find(rest, b);
        assert forall|j: int| 0 <= j < find(s, b) implies #[trigger] s[j] != b by {
            if j > 0 {
                assert(s[j] == rest[j - 1]);
            }
        }
        if find(s, b) < s.len() {
            assert(s[find(s, b)] == rest[find(rest, b)]);
        }
    }
}

/// An index with no `b` before it that holds `b`, or is the length, is what
/// `find` gives.
pub proof fn lemma_find_is(s: Seq<u8>, b: u8, k: int)
    requires
        0 <= k <= s.len(),
        forall|j: int| 0 <= j < k ==> #[trigger] s[j] != b,
        k < s.len() ==> s[k] == b,
    ensures
        find(s, b) == k,
{
    lemma_find(s, b);
    let f = find(s, b);
    if f < k {
        assert(s[f] != b);
    } else if k < f {
        assert(s[k] != b);
    }
}

/// Finds the first byte equal to `b`.
pub fn find_byte(text: &[u8], b: u8) -> (at: usize)
    ensures
        at == find(text@, b),
        at <= text@.len(),
{
    let mut i: usize = 0;
    while i < text.len() && text[i] != b
        invariant
            i <= text.len(),
            forall|j: int| 0 <= j < i ==> #[trigger] text@[j] != b,
        decreases text.len() - i,
    {
        i += 1;
    }
    proof {
        lemma_find_is(text@, b, i as int);
    }
    i
}

/// The fields of `s` between occurrences of `sep`. There is always at least
/// one field; an empty text has one empty field.
pub open spec fn split(s: Seq<u8>, sep: u8) -> Seq<Seq<u8>>
    decreases s.len(),
{
    let i = find(s, sep);
    if 0 <= i < s.len() {
        seq![s.subrange(0, i)] + split(s.subrange(i + 1, s.len() as int), sep)
    } else {
        seq![s]
    }
}

/// `line` without one trailing carriage return.
pub open spec fn strip_cr(line: Seq<u8>) -> Seq<u8> {
    if line.len() > 0 && line.last() == CARRIAGE_RETURN {
        line.drop_last()
    } else {
        line
    }
}

/// The lines of a text. A line ends at a line feed, and a carriage return
/// just before that line feed is not part of the line; what follows the last
/// line feed is a line too, unless it is empty.
pub open spec fn lines(s: Seq<u8>) -> Seq<Seq<u8>>
    decreases s.len(),
{
    let i = find(s, LINE_FEED);
    if s.len() == 0 {
        Seq::empty()
    } else if 0 <= i < s.len() {
        seq![strip_cr(s.subrange(0, i))] + lines(s.subrange(i + 1, s.len() as int))
    } else {
        seq![s]
    }
}

/// Whether `b` is an ASCII decimal digit.
pub open spec fn is_digit(b: u8) -> bool {
    DIGIT_ZERO <= b <= DIGIT_NINE
}

/// Whether every byte is a decimal digit.
pub open spec fn all_digits(s: Seq<u8>) -> bool {
    forall|i: int| 0 <= i < s.len() ==> is_digit(#[trigger] s[i])
}

/// The number a string of decimal digits writes.
pub open spec fn digits_value(s: Seq<u8>) -> nat
    decreases s.len(),
{
    if s.len() == 0 {
        0
    } else {
        (digits_value(s.drop_last()) * 10 + (s.last() - DIGIT_ZERO)) as nat
    }
}

/// The digit at place `i` after the decimal point, zero past the end.
pub open spec fn fraction_digit(frac: Seq<u8>, i: int) -> int {
    if 0 <= i < frac.len() {
        frac[i] - DIGIT_ZERO
    } else {
        0
    }
}

/// The thousandths that the digits after a decimal point stand for. Digits
/// past the third place are below the grid's resolution and do not count.
pub open spec fn thousandths(frac: Seq<u8>) -> int {
    fraction_digit(frac, 0) * 100 + fraction_digit(frac, 1) * 10 + fraction_digit(frac, 2)
}

/// Whether the text starts with a sign.
pub open spec fn has_sign(s: Seq<u8>) -> bool {
    s.len() > 0 && (s[0] == MINUS || s[0] == PLUS)
}

/// The text after its sign, if it has one.
pub open spec fn unsigned_part(s: Seq<u8>) -> Seq<u8> {
    if has_sign(s) {
        s.skip(1)
    } else {
        s
    }
}

/// The digits before the decimal point of an unsigned decimal.
pub open spec fn whole_part(body: Seq<u8>) -> Seq<u8> {
    body.subrange(0, find(body, DECIMAL_POINT))
}

/// The digits after the decimal point of an unsigned decimal, none when it
/// has no point.
pub open spec fn fraction_part(body: Seq<u8>) -> Seq<u8> {
    if find(body, DECIMAL_POINT) < body.len() {
        body.subrange(find(body, DECIMAL_POINT) + 1, body.len() as int)
    } else {
        Seq::empty()
    }
}

/// Whether an unsigned text is a decimal number: digits, then optionally a
/// point and more digits, with at least one digit in all.
pub open spec fn is_decimal(body: Seq<u8>) -> bool {
    &&& all_digits(whole_part(body))
    &&& all_digits(fraction_part(body))
    &&& whole_part(body).len() + fraction_part(body).len() > 0
}

/// The value of a signed decimal in thousandths, truncated toward zero.
pub open spec fn decimal_value(s: Seq<u8>) -> int {
    let body = unsigned_part(s);
    let magnitude = digits_value(whole_part(body)) * 1000 + thousandths(fraction_part(body));
    if s.len() > 0 && s[0] == MINUS {
        -magnitude
    } else {
        magnitude
    }
}

/// The coordinate a field of text writes: a decimal number with an optional
/// sign, in thousandths of a pixel, if it is one and fits the grid.
pub open spec fn coordinate(s: Seq<u8>) -> Option<i32> {
    if is_decimal(unsigned_part(s)) && i32::MIN <= decimal_value(s) <= i32::MAX {
        Some(decimal_value(s) as i32)
    } else {
        None
    }
}

/// Appending a digit multiplies the value by ten and adds the digit.
pub proof fn lemma_digits_push(s: Seq<u8>, d: u8)
    requires
        is_digit(d),
    ensures
        digits_value(s.push(d)) == digits_value(s) * 10 + (d - DIGIT_ZERO),
{
    assert(s.push(d).drop_last() == s);
}

/// Checks that every byte is a digit.
pub fn check_digits(text: &[u8]) -> (ok: bool)
    ensures
        ok == all_digits(text@),
{
    let mut i: usize = 0;
    while i < text.len()
        invariant
            i <= text.len(),
            forall|j: int| 0 <= j < i ==> is_digit(#[trigger] text@[j]),
        decreases text.len() - i,
    {
        if text[i] < DIGIT_ZERO || text[i] > DIGIT_NINE {
            return false;
        }
        i += 1;
    }
    true
}

/// Reads a string of digits as a number of whole pixels, or reports that it
/// is more than the grid can hold.
fn read_whole(text: &[u8]) -> (whole: Option<u64>)
    requires
        all_digits(text@),
    ensures
        match whole {
            Some(n) => n == digits_value(text@) && n <= MAX_WHOLE_PIXELS,
            None => digits_value(text@) > MAX_WHOLE_PIXELS,
        },
{
    let mut acc: u64 = 0;
    let mut i: usize = 0;
    assert(text@.subrange(0, 0) =~= Seq::<u8>::empty());
    while i < text.len()
        invariant
            i <= text.len(),
            all_digits(text@),
            acc == digits_value(text@.subrange(0, i as int)),
            acc <= MAX_WHOLE_PIXELS,
        decreases text.len() - i,
    {
        let d: u64 = (text[i] - DIGIT_ZERO) as u64;
        proof {
            assert(is_digit(text@[i as int]));
            assert(text@.subrange(0, i + 1) == text@.subrange(0, i as int).push(text@[i as int]));
            lemma_digits_push(text@.subrange(0, i as int), text@[i as int]);
        }
        acc = acc * 10 + d;
        if acc > MAX_WHOLE_PIXELS {
            proof {
                lemma_digits_grow(text@, i + 1);
            }
            return None;
        }
        i += 1;
    }
    assert(text@.subrange(0, text.len() as int) == text@);
    Some(acc)
}

/// A string of digits writes at least what any of its prefixes writes.
pub proof fn lemma_digits_grow(s: Seq<u8>, n: int)
    requires
        all_digits(s),
        0 <= n <= s.len(),
    ensures
        digits_value(s.subrange(0, n)) <= digits_value(s),
    decreases s.len() - n,
{
    if n < s.len() {
        assert(is_digit(s[n]));
        assert(s.subrange(0, n + 1) == s.subrange(0, n).push(s[n]));
        lemma_digits_push(s.subrange(0, n), s[n]);
        lemma_digits_grow(s, n + 1);
    } else {
        assert(s.subrange(0, n) == s);
    }
}

/// Reads the first three digits after a decimal point as thousandths.
fn read_thousandths(frac: &[u8]) -> (millis: u64)
    requires
        all_digits(frac@),
    ensures
        millis == thousandths(frac@),
        millis <= 999,
{
    let mut millis: u64 = 0;
    if frac.len() > 0 {
        assert(is_digit(frac@[0]));
        millis = millis + (frac[0] - DIGIT_ZERO) as u64 * 100;
    }
    if frac.len() > 1 {
        assert(is_digit(frac@[1]));
        millis = millis + (frac[1] - DIGIT_ZERO) as u64 * 10;
    }
    if frac.len() > 2 {
        assert(is_digit(frac@[2]));
        millis = millis + (frac[2] - DIGIT_ZERO) as u64;
    }
    millis
}

/// Reads a coordinate: `Some` with its value in thousandths of a pixel when
/// the text is a decimal number that fits the grid, `None` otherwise.
pub fn parse_coordinate(text: &[u8]) -> (value: Option<i32>)
    ensures
        value == coordinate(text@),
{
    let signed = text.len() > 0 && (text[0] == MINUS || text[0] == PLUS);
    let negative = text.len() > 0 && text[0] == MINUS;
    let body = if signed {
        slice_subrange(text, 1, text.len())
    } else {
        text
    };
    assert(body@ == unsigned_part(text@));
    let dot = find_byte(body, DECIMAL_POINT);
    let whole = slice_subrange(body, 0, dot);
    let frac = if dot < body.len() {
        slice_subrange(body, dot + 1, body.len())
    } else {
        slice_subrange(body, dot, dot)
    };
    assert(whole@ == whole_part(body@));
    assert(frac@ =~= fraction_part(body@));
    if !check_digits(whole) || !check_digits(frac) || whole.len() + frac.len() == 0 {
        return None;
    }
    let millis = read_thousandths(frac);
    match read_whole(whole) {
        Some(n) => {
            let magnitude: i64 = (n * 1000 + millis) as i64;
            let value: i64 = if negative {
                -magnitude
            } else {
                magnitude
            };
            if value < -2_147_483_648 || value > 2_147_483_647 {
                None
            } else {
                Some(value as i32)
            }
        },
        None => {
            assert(digits_value(whole@) * 1000 >= 2_147_484_000) by (nonlinear_arith)
                requires
                    digits_value(whole@) > 2_147_483,
            ;
            None
        },
    }
}

} // verus!
