//! Characters and strings: what is assumed of the standard library's
//! functions on them, and the decimal notation of integers.

use vstd::prelude::*;
use vstd::std_specs::iter::IteratorSpec;

verus! {

/// Whether `c` is an ASCII character.
pub open spec fn ascii(c: char) -> bool {
    c as u32 <= 0x7f
}

/// Whether `c`, a character beyond ASCII, has the Unicode property `Alphabetic`.
pub uninterp spec fn unicode_alphabetic(c: char) -> bool;

/// Whether `c`, a character beyond ASCII, has one of the Unicode general
/// categories of numbers.
pub uninterp spec fn unicode_numeric(c: char) -> bool;

/// Whether `c` is alphabetic: in ASCII the letters `a` to `z` and `A` to `Z`,
/// beyond ASCII what Unicode calls alphabetic.
pub open spec fn alphabetic(c: char) -> bool {
    if ascii(c) {
        'a' <= c <= 'z' || 'A' <= c <= 'Z'
    } else {
        unicode_alphabetic(c)
    }
}

/// Whether `c` is numeric: in ASCII the digits `0` to `9`, beyond ASCII what
/// Unicode calls a number.
pub open spec fn numeric(c: char) -> bool {
    if ascii(c) {
        '0' <= c <= '9'
    } else {
        unicode_numeric(c)
    }
}

/// Whether `c` is alphabetic or numeric.
pub open spec fn alphanumeric(c: char) -> bool {
    alphabetic(c) || numeric(c)
}

/// Whether `c` has the Unicode property `White_Space`: one of 25 characters.
pub open spec fn white_space(c: char) -> bool {
    let u = c as u32;
    ||| 0x09 <= u <= 0x0d
    ||| u == 0x20
    ||| u == 0x85
    ||| u == 0xa0
    ||| u == 0x1680
    ||| 0x2000 <= u <= 0x200a
    ||| u == 0x2028
    ||| u == 0x2029
    ||| u == 0x202f
    ||| u == 0x205f
    ||| u == 0x3000
}

/// `char::is_alphabetic` decides the Unicode property `Alphabetic`, which in
/// ASCII the letters have and no other character; beyond ASCII the tables
/// are not restated here.
pub assume_specification[ char::is_alphabetic ](c: char) -> (r: bool)
    ensures
        r == alphabetic(c),
        !ascii(c) ==> r == unicode_alphabetic(c),
;

/// `char::is_alphanumeric` holds of a character if and only if
/// `char::is_alphabetic` or `char::is_numeric` does; in ASCII the digits are
/// numeric and no other character.
pub assume_specification[ char::is_alphanumeric ](c: char) -> (r: bool)
    ensures
        r == alphanumeric(c),
        !ascii(c) ==> r == (unicode_alphabetic(c) || unicode_numeric(c)),
;

/// `char::is_whitespace` decides the Unicode property `White_Space`.
pub assume_specification[ char::is_whitespace ](c: char) -> (r: bool)
    ensures
        r == white_space(c),
;

/// The value of `c` as a digit in the given radix: `0`-`9` count as 0 to 9,
/// letters of either case as 10 to 35, and only values below the radix are
/// digits.
pub open spec fn digit_value(c: char, radix: u32) -> Option<u32> {
    let v: int = if '0' <= c <= '9' {
        c as int - '0' as int
    } else if 'a' <= c <= 'z' {
        c as int - 'a' as int + 10
    } else if 'A' <= c <= 'Z' {
        c as int - 'A' as int + 10
    } else {
        36
    };
    if v < radix {
        Some(v as u32)
    } else {
        None
    }
}

/// `char::to_digit` converts a character to a digit in a radix from 2 to 36
/// and panics on any other radix.
pub assume_specification[ char::to_digit ](c: char, radix: u32) -> (r: Option<u32>)
    requires
        2 <= radix <= 36,
    ensures
        r == digit_value(c, radix),
;

/// `String::push` appends one character.
pub assume_specification[ String::push ](s: &mut String, c: char)
    ensures
        final(s)@ == old(s)@.push(c),
;

/// Equality of string slices is equality of their characters.
pub assume_specification[ <str as PartialEq>::eq ](a: &str, b: &str) -> (r: bool)
    ensures
        r == (a@ == b@),
;

/// The characters of a string slice, in order.
pub fn collect_chars(src: &str) -> (v: Vec<char>)
    ensures
        v@ == src@,
{
    let mut v: Vec<char> = Vec::new();
    for c in it: src.chars()
        invariant
            v@ == it.seq().take(it.index() as int),
            it.seq() == src@,
    {
        v.push(c);
    }
    v
}

/// The number that a sequence of decimal digits denotes.
pub open spec fn decimal_value(digits: Seq<char>) -> nat
    decreases digits.len(),
{
    if digits.len() == 0 {
        0
    } else {
        let d = digit_value(digits.last(), 10);
        10 * decimal_value(digits.drop_last()) + (if d is Some { d->0 as nat } else { 0 })
    }
}

/// The character that stands for the digit `d`.
pub open spec fn digit_char(d: nat) -> char {
    ('0' as nat + d) as char
}

/// The decimal digits of `n`, most significant first, without leading zeros.
pub open spec fn decimal_digits(n: nat) -> Seq<char>
    decreases n,
{
    if n < 10 {
        seq![digit_char(n)]
    } else {
        decimal_digits(n / 10).push(digit_char(n % 10))
    }
}

/// The decimal text of `i`, with a minus sign before a negative number.
pub open spec fn decimal_text(i: int) -> Seq<char> {
    if i < 0 {
        seq!['-'] + decimal_digits((-i) as nat)
    } else {
        decimal_digits(i as nat)
    }
}

/// Appends the decimal digits of `n` to `text`.
fn push_decimal(text: &mut String, n: u64)
    ensures
        final(text)@ == old(text)@ + decimal_digits(n as nat),
    decreases n,
{
    if n >= 10 {
        push_decimal(text, n / 10);
    }
    let digit = (n % 10) as u8;
    text.push((48u8 + digit) as char);
    assert(text@ =~= old(text)@ + decimal_digits(n as nat));
}

/// Appends the decimal text of `i` to `text`.
pub fn push_decimal_text(text: &mut String, i: i64)
    ensures
        final(text)@ == old(text)@ + decimal_text(i as int),
{
    if i < 0 {
        text.push('-');
        let magnitude = (-(i + 1)) as u64 + 1;
        push_decimal(text, magnitude);
        assert(text@ =~= old(text)@ + decimal_text(i as int));
    } else {
        push_decimal(text, i as u64);
    }
}

/// The digits of a number denote that number.
pub proof fn lemma_decimal_round_trip(n: nat)
    ensures
        decimal_value(decimal_digits(n)) == n,
        forall|k: int|
            0 <= k < decimal_digits(n).len() ==> digit_value(
                #[trigger] decimal_digits(n)[k],
                10,
            ) is Some,
    decreases n,
{
    let digits = decimal_digits(n);
    if n < 10 {
        assert(digits.drop_last() =~= Seq::<char>::empty());
        assert(decimal_value(digits.drop_last()) == 0);
    } else {
        lemma_decimal_round_trip(n / 10);
        assert(digits.drop_last() =~= decimal_digits(n / 10));
    }
}

} // verus!
