//! Texts and byte strings: taking them apart into characters and lines,
//! putting them together, and writing and reading numbers in them.

use vstd::prelude::*;
use vstd::std_specs::iter::IteratorSpec;
use crate::rows::texts_of;

verus! {

/// `String::push` appends one character to the string.
pub assume_specification[ String::push ](s: &mut String, ch: char)
    ensures
        final(s)@ == old(s)@.push(ch),
;

/// The characters of `s`, in order.
pub fn chars_of(s: &str) -> (chars: Vec<char>)
    ensures
        chars@ == s@,
{
    let mut chars: Vec<char> = Vec::new();
    let mut it = s.chars();
    loop
        invariant
            chars@ + it.remaining() == s@,
            it.decrease() is Some,
        ensures
            it.remaining().len() == 0,
        decreases it.decrease()->0,
    {
        let ghost before = it;
        match it.next() {
            Some(c) => {
                assert(before.remaining() == seq![c] + it.remaining());
                chars.push(c);
            },
            None => {
                assert(it.remaining().len() == 0);
                break ;
            },
        }
    }
    assert(chars@ + it.remaining() == chars@);
    chars
}

/// The string made of `chars`, in order.
pub fn string_of(chars: &Vec<char>) -> (s: String)
    ensures
        s@ == chars@,
{
    let mut s = String::new();
    let mut i: usize = 0;
    while i < chars.len()
        invariant
            i <= chars.len(),
            s@ == chars@.take(i as int),
        decreases chars.len() - i,
    {
        s.push(chars[i]);
        assert(chars@.take(i + 1) == chars@.take(i as int).push(chars@[i as int]));
        i += 1;
    }
    assert(chars@.take(chars.len() as int) == chars@);
    s
}

/// Whether two byte strings hold the same bytes.
pub fn same_bytes(a: &[u8], b: &[u8]) -> (same: bool)
    ensures
        same == (a@ == b@),
{
    if a.len() != b.len() {
        return false;
    }
    let mut i: usize = 0;
    while i < a.len()
        invariant
            i <= a.len(),
            a.len() == b.len(),
            a@.take(i as int) == b@.take(i as int),
        decreases a.len() - i,
    {
        if a[i] != b[i] {
            return false;
        }
        assert(a@.take(i + 1) == a@.take(i as int).push(a@[i as int]));
        assert(b@.take(i + 1) == b@.take(i as int).push(b@[i as int]));
        i += 1;
    }
    assert(a@.take(a.len() as int) == a@);
    assert(b@.take(b.len() as int) == b@);
    true
}

/// Whether two strings hold the same characters.
pub fn same_text(a: &str, b: &str) -> (same: bool)
    ensures
        same == (a@ == b@),
{
    proof {
        vstd::utf8::encode_utf8_decode_utf8(a@);
        vstd::utf8::encode_utf8_decode_utf8(b@);
    }
    same_bytes(a.as_bytes(), b.as_bytes())
}

/// A copy of a byte string.
pub fn copy_bytes(a: &[u8]) -> (copy: Vec<u8>)
    ensures
        copy@ == a@,
{
    let mut copy: Vec<u8> = Vec::new();
    let mut i: usize = 0;
    while i < a.len()
        invariant
            i <= a.len(),
            copy@ == a@.take(i as int),
        decreases a.len() - i,
    {
        copy.push(a[i]);
        assert(a@.take(i + 1) == a@.take(i as int).push(a@[i as int]));
        i += 1;
    }
    assert(a@.take(a.len() as int) == a@);
    copy
}

/// The texts of `parts` in a row, with `separator` between each two.
pub open spec fn joined(parts: Seq<Seq<char>>, separator: Seq<char>) -> Seq<char>
    decreases parts.len(),
{
    if parts.len() == 0 {
        Seq::empty()
    } else if parts.len() == 1 {
        parts[0]
    } else {
        joined(parts.drop_last(), separator) + separator + parts.last()
    }
}

/// Calls `itertools::Itertools::join` on the items of `parts`, which writes
/// them one after the other into a new string and `separator` between each
/// two; for no item the string is empty.
#[verifier::external_body]
pub(crate) fn join(parts: &Vec<String>, separator: &str) -> (text: String)
    ensures
        text@ == joined(texts_of(parts@), separator@),
{
    itertools::Itertools::join(&mut parts.iter(), separator)
}

/// The lines of a text from `at` on, where the line that is being read
/// began at `start`. A line ends with a line feed, which is no part of it,
/// nor is a carriage return just before that line feed. What follows the
/// last line feed is a line too, unless it is empty.
pub open spec fn lines_from(text: Seq<char>, start: int, at: int) -> Seq<Seq<char>>
    decreases text.len() - at,
{
    if at >= text.len() {
        if start < text.len() {
            seq![text.subrange(start, text.len() as int)]
        } else {
            Seq::empty()
        }
    } else if text[at] == '\n' {
        let end = if at > start && text[at - 1] == '\r' {
            at - 1
        } else {
            at
        };
        seq![text.subrange(start, end)] + lines_from(text, at + 1, at + 1)
    } else {
        lines_from(text, start, at + 1)
    }
}

/// The lines of a text.
pub open spec fn lines_of(text: Seq<char>) -> Seq<Seq<char>> {
    lines_from(text, 0, 0)
}

/// Takes a text apart into its lines.
pub fn lines(text: &str) -> (found: Vec<String>)
    ensures
        texts_of(found@) == lines_of(text@),
{
    let chars = chars_of(text);
    let mut found: Vec<String> = Vec::new();
    let mut current: Vec<char> = Vec::new();
    let mut start: usize = 0;
    let mut at: usize = 0;
    assert(texts_of(found@) + lines_from(chars@, 0, 0) =~= lines_from(chars@, 0, 0));
    while at < chars.len()
        invariant
            start <= at <= chars.len(),
            current@ == chars@.subrange(start as int, at as int),
            texts_of(found@) + lines_from(chars@, start as int, at as int) == lines_of(chars@),
        decreases chars.len() - at,
    {
        let c = chars[at];
        if c == '\n' {
            if at > start && chars[at - 1] == '\r' {
                current.pop();
                assert(current@ =~= chars@.subrange(start as int, at - 1));
            }
            let ghost before = texts_of(found@);
            let ghost rest = lines_from(chars@, at + 1, at + 1);
            found.push(string_of(&current));
            assert(texts_of(found@) =~= before.push(current@));
            assert(before + (seq![current@] + rest) =~= before.push(current@) + rest);
            current = Vec::new();
            start = at + 1;
            assert(current@ =~= chars@.subrange(start as int, start as int));
        } else {
            current.push(c);
            assert(current@ =~= chars@.subrange(start as int, at + 1));
        }
        at += 1;
    }
    if start < chars.len() {
        let ghost before = texts_of(found@);
        found.push(string_of(&current));
        assert(texts_of(found@) =~= before.push(current@));
        assert(before + seq![current@] =~= before.push(current@));
    } else {
        assert(texts_of(found@) + Seq::<Seq<char>>::empty() =~= texts_of(found@));
    }
    found
}

/// The lower-case hexadecimal digit of a value below 16.
pub open spec fn hex_digit(value: int) -> char {
    if value == 0 {
        '0'
    } else if value == 1 {
        '1'
    } else if value == 2 {
        '2'
    } else if value == 3 {
        '3'
    } else if value == 4 {
        '4'
    } else if value == 5 {
        '5'
    } else if value == 6 {
        '6'
    } else if value == 7 {
        '7'
    } else if value == 8 {
        '8'
    } else if value == 9 {
        '9'
    } else if value == 10 {
        'a'
    } else if value == 11 {
        'b'
    } else if value == 12 {
        'c'
    } else if value == 13 {
        'd'
    } else if value == 14 {
        'e'
    } else {
        'f'
    }
}

/// The lower-case hexadecimal digit of a value below 16.
pub fn hex_digit_of(value: u8) -> (c: char)
    requires
        value < 16,
    ensures
        c == hex_digit(value as int),
{
    if value == 0 {
        '0'
    } else if value == 1 {
        '1'
    } else if value == 2 {
        '2'
    } else if value == 3 {
        '3'
    } else if value == 4 {
        '4'
    } else if value == 5 {
        '5'
    } else if value == 6 {
        '6'
    } else if value == 7 {
        '7'
    } else if value == 8 {
        '8'
    } else if value == 9 {
        '9'
    } else if value == 10 {
        'a'
    } else if value == 11 {
        'b'
    } else if value == 12 {
        'c'
    } else if value == 13 {
        'd'
    } else if value == 14 {
        'e'
    } else {
        'f'
    }
}

/// The bytes written in lower-case hexadecimal digits, two to a byte.
pub open spec fn hex_text(bytes: Seq<u8>) -> Seq<char>
    decreases bytes.len(),
{
    if bytes.len() == 0 {
        Seq::empty()
    } else {
        hex_text(bytes.drop_last()).push(hex_digit(bytes.last() as int / 16)).push(
            hex_digit(bytes.last() as int % 16),
        )
    }
}

/// Two hexadecimal digits stand for every byte.
pub proof fn lemma_hex_text_len(bytes: Seq<u8>)
    ensures
        hex_text(bytes).len() == 2 * bytes.len(),
    decreases bytes.len(),
{
    if bytes.len() > 0 {
        lemma_hex_text_len(bytes.drop_last());
    }
}

/// Writes bytes in lower-case hexadecimal digits.
pub fn hex_lower(bytes: &[u8]) -> (text: String)
    ensures
        text@ == hex_text(bytes@),
{
    let mut text = String::new();
    let mut i: usize = 0;
    assert(bytes@.take(0) == Seq::<u8>::empty());
    while i < bytes.len()
        invariant
            i <= bytes.len(),
            text@ == hex_text(bytes@.take(i as int)),
        decreases bytes.len() - i,
    {
        proof {
            let upto = bytes@.take(i + 1);
            assert(upto.drop_last() == bytes@.take(i as int));
            assert(upto.last() == bytes@[i as int]);
        }
        let byte = bytes[i];
        text.push(hex_digit_of(byte / 16));
        text.push(hex_digit_of(byte % 16));
        i += 1;
    }
    assert(bytes@.take(bytes.len() as int) == bytes@);
    text
}

/// The decimal digits of a number, as bytes.
pub open spec fn decimal_digits(n: nat) -> Seq<u8>
    decreases n,
{
    if n < 10 {
        seq![(0x30 + n) as u8]
    } else {
        decimal_digits(n / 10).push((0x30 + n % 10) as u8)
    }
}

/// Writes a number in decimal digits.
pub fn decimal_of(n: usize) -> (digits: Vec<u8>)
    ensures
        digits@ == decimal_digits(n as nat),
{
    let mut reversed: Vec<u8> = Vec::new();
    let mut rest: usize = n;
    // the digits from the last upwards
    while rest >= 10
        invariant
            decimal_digits(n as nat) == decimal_digits(rest as nat) + reversed@.reverse(),
        decreases rest,
    {
        let ghost before = reversed@;
        reversed.push(0x30 + (rest % 10) as u8);
        proof {
            let digit = (0x30 + rest % 10) as u8;
            assert(reversed@.reverse() =~= seq![digit] + before.reverse());
            assert(decimal_digits(rest as nat) == decimal_digits((rest / 10) as nat).push(digit));
            assert(decimal_digits((rest / 10) as nat).push(digit) + before.reverse()
                =~= decimal_digits((rest / 10) as nat) + (seq![digit] + before.reverse()));
        }
        rest = rest / 10;
    }
    let ghost before = reversed@;
    reversed.push(0x30 + rest as u8);
    assert(reversed@.reverse() =~= seq![(0x30 + rest) as u8] + before.reverse());
    let mut digits: Vec<u8> = Vec::new();
    let mut i: usize = reversed.len();
    while i > 0
        invariant
            i <= reversed.len(),
            digits@ == reversed@.reverse().take(reversed.len() - i),
        decreases i,
    {
        i -= 1;
        let ghost so_far = digits@;
        digits.push(reversed[i]);
        assert(digits@ =~= reversed@.reverse().take(reversed.len() - i));
    }
    assert(reversed@.reverse().take(reversed.len() as int) == reversed@.reverse());
    digits
}

/// The value of a decimal digit, if `c` is one.
pub open spec fn digit_value(c: char) -> Option<nat> {
    if '0' <= c && c <= '9' {
        Some((c as u32 - 0x30) as nat)
    } else {
        None
    }
}

/// Whether `text` is made of decimal digits, at least one.
pub open spec fn is_decimal(text: Seq<char>) -> bool {
    text.len() > 0 && forall|i: int| 0 <= i < text.len() ==> digit_value(#[trigger] text[i]) is Some
}

/// The number that decimal digits stand for.
pub open spec fn decimal_value(text: Seq<char>) -> nat
    decreases text.len(),
{
    if text.len() == 0 {
        0
    } else {
        decimal_value(text.drop_last()) * 10 + digit_value(text.last()).unwrap_or(0)
    }
}

/// Reads a number below 2^32 from its decimal digits; none where the text
/// is empty, holds anything but digits, or stands for a larger number.
pub fn parse_decimal(text: &str) -> (value: Option<u32>)
    ensures
        value is Some <==> is_decimal(text@) && decimal_value(text@) <= u32::MAX,
        value matches Some(v) ==> v == decimal_value(text@),
{
    let chars = chars_of(text);
    if chars.len() == 0 {
        return None;
    }
    let mut value: u32 = 0;
    let mut i: usize = 0;
    assert(chars@.take(0) == Seq::<char>::empty());
    while i < chars.len()
        invariant
            i <= chars.len(),
            chars@ == text@,
            value == decimal_value(chars@.take(i as int)),
            forall|k: int| 0 <= k < i ==> digit_value(#[trigger] chars@[k]) is Some,
        decreases chars.len() - i,
    {
        let c = chars[i];
        if !('0' <= c && c <= '9') {
            assert(digit_value(chars@[i as int]) is None);
            return None;
        }
        let digit: u32 = c as u32 - 0x30;
        proof {
            let upto = chars@.take(i + 1);
            assert(upto.drop_last() == chars@.take(i as int));
            assert(upto.last() == c);
            assert(decimal_value(upto) == value * 10 + digit);
            lemma_decimal_value_grows(chars@, i + 1);
        }
        let next: u64 = value as u64 * 10 + digit as u64;
        if next > u32::MAX as u64 {
            return None;
        }
        value = next as u32;
        i += 1;
    }
    assert(chars@.take(chars.len() as int) == chars@);
    Some(value)
}

/// A number as it is written, without the plus sign that may stand before
/// its digits.
pub open spec fn without_plus(text: Seq<char>) -> Seq<char> {
    if text.len() > 0 && text[0] == '+' {
        text.skip(1)
    } else {
        text
    }
}

/// Reads a number below 2^32 from its decimal digits, before which a plus
/// sign may stand; none where no digit follows, anything but digits
/// follows, or the digits stand for a larger number.
pub fn parse_number(text: &str) -> (value: Option<u32>)
    ensures
        value is Some <==> is_decimal(without_plus(text@)) && decimal_value(without_plus(text@))
            <= u32::MAX,
        value matches Some(v) ==> v == decimal_value(without_plus(text@)),
{
    let chars = chars_of(text);
    if chars.len() > 0 && chars[0] == '+' {
        let mut digits: Vec<char> = Vec::new();
        let mut i: usize = 1;
        while i < chars.len()
            invariant
                1 <= i <= chars.len(),
                digits@ == chars@.subrange(1, i as int),
            decreases chars.len() - i,
        {
            digits.push(chars[i]);
            assert(chars@.subrange(1, i + 1) == chars@.subrange(1, i as int).push(
                chars@[i as int],
            ));
            i += 1;
        }
        assert(digits@ =~= text@.skip(1));
        let rest = string_of(&digits);
        parse_decimal(rest.as_str())
    } else {
        parse_decimal(text)
    }
}

/// The digits read so far never stand for more than all of them do.
proof fn lemma_decimal_value_grows(text: Seq<char>, upto: int)
    requires
        0 <= upto <= text.len(),
    ensures
        decimal_value(text.take(upto)) <= decimal_value(text),
    decreases text.len() - upto,
{
    if upto < text.len() {
        let next = text.take(upto + 1);
        assert(next.drop_last() == text.take(upto));
        assert(decimal_value(next) >= decimal_value(text.take(upto)) * 10) by {
            assert(decimal_value(next) == decimal_value(text.take(upto)) * 10 + digit_value(
                next.last(),
            ).unwrap_or(0));
        }
        lemma_decimal_value_grows(text, upto + 1);
    } else {
        assert(text.take(upto) == text);
    }
}

} // verus!
