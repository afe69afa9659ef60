//! Whether a text is well-formed JSON: one value, with nothing but spaces
//! around it.
//!
//! The text is read from its first character to its last. What is open, the
//! objects and arrays that the place lies in, is kept from the outermost to
//! the innermost; what the reading awaits at the place is kept beside it.

use vstd::prelude::*;
use crate::pointer::{
    decode_from, decode_string, is_space, matches_at, skip_space, skip_spaces, stands_at,
};

verus! {

/// What the reading of a text awaits at a place.
#[derive(Debug, Clone, Copy, PartialEq, Eq)]
pub enum Awaits {
    /// A value.
    Value,
    /// A value, or the bracket that closes an array that holds none.
    ValueOrClose,
    /// The key of a member.
    Key,
    /// The key of a member, or the brace that closes an object that holds
    /// none.
    KeyOrClose,
    /// The colon behind a key.
    Colon,
    /// A comma, or what closes the object or array that is open.
    CommaOrClose,
    /// Nothing more.
    End,
}

/// Whether `c` is a decimal digit.
pub open spec fn is_digit(c: char) -> bool {
    '0' <= c && c <= '9'
}

/// The first place from `at` on at which no digit stands.
pub open spec fn digits_end(s: Seq<char>, at: int) -> int
    decreases s.len() - at,
{
    if 0 <= at < s.len() && is_digit(s[at]) {
        digits_end(s, at + 1)
    } else {
        at
    }
}

/// The place behind the fraction that stands at `at`, or `at` where none
/// stands there; none where a point stands there without a digit behind it.
pub open spec fn fraction_end(s: Seq<char>, at: int) -> Option<int> {
    if 0 <= at < s.len() && s[at] == '.' {
        if at + 1 < s.len() && is_digit(s[at + 1]) {
            Some(digits_end(s, at + 1))
        } else {
            None
        }
    } else {
        Some(at)
    }
}

/// The place behind the exponent that stands at `at`, or `at` where none
/// stands there; none where its letter stands there without a digit behind
/// it or behind its sign.
pub open spec fn exponent_end(s: Seq<char>, at: int) -> Option<int> {
    if 0 <= at < s.len() && (s[at] == 'e' || s[at] == 'E') {
        let digits = if at + 1 < s.len() && (s[at + 1] == '+' || s[at + 1] == '-') {
            at + 2
        } else {
            at + 1
        };
        if digits < s.len() && is_digit(s[digits]) {
            Some(digits_end(s, digits))
        } else {
            None
        }
    } else {
        Some(at)
    }
}

/// The place behind the number that stands at `at`: a minus sign or none,
/// a zero or digits that do not begin with one, then a fraction or none and
/// an exponent or none.
pub open spec fn number_end(s: Seq<char>, at: int) -> Option<int> {
    let start = if 0 <= at < s.len() && s[at] == '-' {
        at + 1
    } else {
        at
    };
    if 0 <= start < s.len() && is_digit(s[start]) {
        let whole = if s[start] == '0' {
            start + 1
        } else {
            digits_end(s, start)
        };
        match fraction_end(s, whole) {
            Some(fraction) => exponent_end(s, fraction),
            None => None,
        }
    } else {
        None
    }
}

/// The place behind the string that stands at `at` in its quotes.
pub open spec fn string_end(s: Seq<char>, at: int) -> Option<int> {
    if 0 <= at < s.len() && s[at] == '"' {
        match decode_from(s, at + 1) {
            Some((_, end)) => Some(end + 1),
            None => None,
        }
    } else {
        None
    }
}

/// The place behind the value without parts that stands at `at`: a string,
/// a number, or one of the three words.
pub open spec fn scalar_end(s: Seq<char>, at: int) -> Option<int> {
    if 0 <= at < s.len() && s[at] == '"' {
        string_end(s, at)
    } else if stands_at(s, at, seq!['t', 'r', 'u', 'e']) {
        Some(at + 4)
    } else if stands_at(s, at, seq!['f', 'a', 'l', 's', 'e']) {
        Some(at + 5)
    } else if stands_at(s, at, seq!['n', 'u', 'l', 'l']) {
        Some(at + 4)
    } else {
        number_end(s, at)
    }
}

/// What is awaited behind a value: nothing more where nothing is open, else
/// a comma or what closes the innermost.
pub open spec fn after_value(open: Seq<bool>) -> Awaits {
    if open.len() == 0 {
        Awaits::End
    } else {
        Awaits::CommaOrClose
    }
}

/// What the reading comes to by the step it makes at `at`: the next place,
/// what is open there and what is awaited there. `open` tells of each
/// object and array that the place lies in whether it is an object, the
/// innermost last, and `awaits` what is awaited at the place. None where
/// what stands at the place is not what is awaited.
#[verifier::opaque]
pub open spec fn step(s: Seq<char>, at: int, open: Seq<bool>, awaits: Awaits) -> Option<
    (int, Seq<bool>, Awaits),
> {
    if at < 0 || at >= s.len() {
        None
    } else if is_space(s[at]) {
        Some((at + 1, open, awaits))
    } else if awaits is End {
        None
    } else if awaits is Colon {
        if s[at] == ':' {
            Some((at + 1, open, Awaits::Value))
        } else {
            None
        }
    } else if awaits is CommaOrClose {
        if open.len() == 0 {
            None
        } else if s[at] == ',' {
            Some(
                (
                    at + 1,
                    open,
                    if open.last() {
                        Awaits::Key
                    } else {
                        Awaits::Value
                    },
                ),
            )
        } else if (s[at] == '}' && open.last()) || (s[at] == ']' && !open.last()) {
            Some((at + 1, open.drop_last(), after_value(open.drop_last())))
        } else {
            None
        }
    } else if (awaits is ValueOrClose && s[at] == ']') || (awaits is KeyOrClose && s[at] == '}') {
        if open.len() > 0 {
            Some((at + 1, open.drop_last(), after_value(open.drop_last())))
        } else {
            None
        }
    } else if awaits is Key || awaits is KeyOrClose {
        match string_end(s, at) {
            Some(end) => Some((end, open, Awaits::Colon)),
            None => None,
        }
    } else if s[at] == '{' {
        Some((at + 1, open.push(true), Awaits::KeyOrClose))
    } else if s[at] == '[' {
        Some((at + 1, open.push(false), Awaits::ValueOrClose))
    } else {
        match scalar_end(s, at) {
            Some(end) => Some((end, open, after_value(open))),
            None => None,
        }
    }
}

/// Whether the text is well formed from `at` on: step by step the reading
/// comes to the end of the text, and nothing more is awaited there.
pub open spec fn well_formed_from(s: Seq<char>, at: int, open: Seq<bool>, awaits: Awaits) -> bool
    decreases s.len() - at,
{
    if at < 0 || at > s.len() {
        false
    } else if at == s.len() {
        awaits is End
    } else {
        match step(s, at, open, awaits) {
            Some((next, then_open, then_awaits)) => if at < next <= s.len() {
                well_formed_from(s, next, then_open, then_awaits)
            } else {
                false
            },
            None => false,
        }
    }
}

/// Whether the text is one well-formed value with nothing but spaces around
/// it.
pub open spec fn well_formed(s: Seq<char>) -> bool {
    well_formed_from(s, 0, Seq::empty(), Awaits::Value)
}

/// The place at which the value of a member begins whose key ends before
/// `end`: behind the colon and the spaces around it. None where no colon
/// stands behind the key.
pub open spec fn value_behind(s: Seq<char>, end: int) -> Option<int> {
    let colon = skip_space(s, end);
    if 0 <= colon < s.len() && s[colon] == ':' {
        Some(skip_space(s, colon + 1))
    } else {
        None
    }
}

/// The place at which the value under `key` begins, where the key of a
/// member stands at `at`, is `key`, and has a colon behind it.
pub open spec fn value_here(s: Seq<char>, at: int, awaits: Awaits, key: Seq<char>) -> Option<int> {
    if 0 <= at < s.len() && s[at] == '"' && (awaits is Key || awaits is KeyOrClose) {
        match decode_from(s, at + 1) {
            Some((name, quote)) => if name == key {
                value_behind(s, quote + 1)
            } else {
                None
            },
            None => None,
        }
    } else {
        None
    }
}

/// The places at which the values under `key` begin, in the order of the
/// text, among the members of the objects that lie `level` deep. The text
/// is read from `at` on step by step, as far as it is well formed.
pub open spec fn values_under(
    s: Seq<char>,
    at: int,
    open: Seq<bool>,
    awaits: Awaits,
    key: Seq<char>,
    level: int,
) -> Seq<int>
    decreases s.len() - at,
{
    if at < 0 || at >= s.len() {
        Seq::empty()
    } else {
        match step(s, at, open, awaits) {
            Some((next, then_open, then_awaits)) => if at < next <= s.len() {
                let rest = values_under(s, next, then_open, then_awaits, key, level);
                if open.len() == level && value_here(s, at, awaits, key) is Some {
                    seq![value_here(s, at, awaits, key)->0] + rest
                } else {
                    rest
                }
            } else {
                Seq::empty()
            },
            None => Seq::empty(),
        }
    }
}

/// The places at which the values under `key` begin among the members of
/// the value that stands at `at`, where that value is an object.
pub open spec fn members_under(s: Seq<char>, at: int, key: Seq<char>) -> Seq<int> {
    values_under(s, at, Seq::empty(), Awaits::Value, key, 1)
}

/// The places as places in a sequence.
pub open spec fn places_of(found: Seq<usize>) -> Seq<int> {
    found.map_values(|place: usize| place as int)
}

/// Finds the first place from `at` on at which no digit stands.
fn digits_to(text: &Vec<char>, at: usize) -> (end: usize)
    requires
        at <= text.len(),
    ensures
        end == digits_end(text@, at as int),
        at <= end <= text.len(),
        at < text.len() && is_digit(text@[at as int]) ==> at < end,
{
    let mut end: usize = at;
    while end < text.len() && '0' <= text[end] && text[end] <= '9'
        invariant
            at <= end <= text.len(),
            digits_end(text@, at as int) == digits_end(text@, end as int),
        decreases text.len() - end,
    {
        end += 1;
    }
    end
}

/// Whether a digit stands at `at`.
fn digit_at(text: &Vec<char>, at: usize) -> (found: bool)
    ensures
        found == (at < text.len() && is_digit(text@[at as int])),
{
    at < text.len() && '0' <= text[at] && text[at] <= '9'
}

/// Finds the place behind the fraction that stands at `at`.
fn fraction_to(text: &Vec<char>, at: usize) -> (end: Option<usize>)
    requires
        at <= text.len(),
    ensures
        spec_end(end) == fraction_end(text@, at as int),
        end matches Some(e) ==> at <= e <= text.len(),
{
    if at < text.len() && text[at] == '.' {
        if digit_at(text, at + 1) {
            Some(digits_to(text, at + 1))
        } else {
            None
        }
    } else {
        Some(at)
    }
}

/// Finds the place behind the exponent that stands at `at`.
fn exponent_to(text: &Vec<char>, at: usize) -> (end: Option<usize>)
    requires
        at <= text.len(),
    ensures
        spec_end(end) == exponent_end(text@, at as int),
        end matches Some(e) ==> at <= e <= text.len(),
{
    if at < text.len() && (text[at] == 'e' || text[at] == 'E') {
        let signed = at + 1 < text.len() && (text[at + 1] == '+' || text[at + 1] == '-');
        let digits: usize = if signed {
            at + 2
        } else {
            at + 1
        };
        if digit_at(text, digits) {
            Some(digits_to(text, digits))
        } else {
            None
        }
    } else {
        Some(at)
    }
}

/// Finds the place behind the number that stands at `at`.
fn number_to(text: &Vec<char>, at: usize) -> (end: Option<usize>)
    requires
        at < text.len(),
    ensures
        spec_end(end) == number_end(text@, at as int),
        end matches Some(e) ==> at < e <= text.len(),
{
    let start: usize = if text[at] == '-' {
        at + 1
    } else {
        at
    };
    if !digit_at(text, start) {
        return None;
    }
    let whole: usize = if text[start] == '0' {
        start + 1
    } else {
        digits_to(text, start)
    };
    match fraction_to(text, whole) {
        Some(fraction) => exponent_to(text, fraction),
        None => None,
    }
}

/// Finds the place behind the string that stands at `at` in its quotes.
fn string_to(text: &Vec<char>, at: usize) -> (end: Option<usize>)
    requires
        at < text.len(),
    ensures
        spec_end(end) == string_end(text@, at as int),
        end matches Some(e) ==> at < e <= text.len(),
{
    if text[at] != '"' {
        return None;
    }
    match decode_string(text, at + 1) {
        Some((_, quote)) => Some(quote + 1),
        None => None,
    }
}

/// Finds the place behind the value without parts that stands at `at`.
fn scalar_to(text: &Vec<char>, at: usize) -> (end: Option<usize>)
    requires
        at < text.len(),
    ensures
        spec_end(end) == scalar_end(text@, at as int),
        end matches Some(e) ==> at < e <= text.len(),
{
    let yes: [char; 4] = ['t', 'r', 'u', 'e'];
    let no: [char; 5] = ['f', 'a', 'l', 's', 'e'];
    let nothing: [char; 4] = ['n', 'u', 'l', 'l'];
    assert(yes@ =~= seq!['t', 'r', 'u', 'e']);
    assert(no@ =~= seq!['f', 'a', 'l', 's', 'e']);
    assert(nothing@ =~= seq!['n', 'u', 'l', 'l']);
    if text[at] == '"' {
        string_to(text, at)
    } else if matches_at(text, at, &yes) {
        Some(at + 4)
    } else if matches_at(text, at, &no) {
        Some(at + 5)
    } else if matches_at(text, at, &nothing) {
        Some(at + 4)
    } else {
        number_to(text, at)
    }
}

/// The place as a place in a sequence.
pub open spec fn spec_end(end: Option<usize>) -> Option<int> {
    match end {
        Some(e) => Some(e as int),
        None => None,
    }
}

/// What is awaited behind a value.
fn awaited_after(open: &Vec<bool>) -> (awaits: Awaits)
    ensures
        awaits == after_value(open@),
{
    if open.len() == 0 {
        Awaits::End
    } else {
        Awaits::CommaOrClose
    }
}

/// Makes the step of the reading at `at`: hands back the next place and what
/// is awaited there, and leaves in `open` what is open there.
fn step_at(text: &Vec<char>, at: usize, open: &mut Vec<bool>, awaits: Awaits) -> (next: Option<
    (usize, Awaits),
>)
    requires
        at < text.len(),
    ensures
        match next {
            Some((place, then)) => step(text@, at as int, old(open)@, awaits) == Some(
                (place as int, final(open)@, then),
            ) && at < place <= text.len(),
            None => step(text@, at as int, old(open)@, awaits) is None,
        },
{
    reveal(step);
    let c = text[at];
    if c == ' ' || c == '\n' || c == '\r' || c == '\t' {
        return Some((at + 1, awaits));
    }
    let closes = match awaits {
        Awaits::ValueOrClose => c == ']',
        Awaits::KeyOrClose => c == '}',
        Awaits::CommaOrClose => open.len() > 0 && ((c == '}' && open[open.len() - 1]) || (c == ']'
            && !open[open.len() - 1])),
        _ => false,
    };
    if closes {
        if open.len() == 0 {
            return None;
        }
        open.pop();
        return Some((at + 1, awaited_after(open)));
    }
    match awaits {
        Awaits::End => None,
        Awaits::Value | Awaits::ValueOrClose => {
            if c == '{' {
                open.push(true);
                Some((at + 1, Awaits::KeyOrClose))
            } else if c == '[' {
                open.push(false);
                Some((at + 1, Awaits::ValueOrClose))
            } else {
                match scalar_to(text, at) {
                    Some(end) => Some((end, awaited_after(open))),
                    None => None,
                }
            }
        },
        Awaits::Key | Awaits::KeyOrClose => {
            match string_to(text, at) {
                Some(end) => Some((end, Awaits::Colon)),
                None => None,
            }
        },
        Awaits::Colon => {
            if c == ':' {
                Some((at + 1, Awaits::Value))
            } else {
                None
            }
        },
        Awaits::CommaOrClose => {
            if c != ',' || open.len() == 0 {
                None
            } else if open[open.len() - 1] {
                Some((at + 1, Awaits::Key))
            } else {
                Some((at + 1, Awaits::Value))
            }
        },
    }
}

/// Whether the text is one well-formed value with nothing but spaces around
/// it.
pub fn is_well_formed(text: &Vec<char>) -> (ok: bool)
    ensures
        ok == well_formed(text@),
{
    let mut at: usize = 0;
    let mut open: Vec<bool> = Vec::new();
    let mut awaits = Awaits::Value;
    while at < text.len()
        invariant
            at <= text.len(),
            well_formed(text@) == well_formed_from(text@, at as int, open@, awaits),
        decreases text.len() - at,
    {
        match step_at(text, at, &mut open, awaits) {
            Some((next, then)) => {
                at = next;
                awaits = then;
            },
            None => {
                return false;
            },
        }
    }
    match awaits {
        Awaits::End => true,
        _ => false,
    }
}

/// Finds the place at which the value under `key` begins, where the key of
/// a member stands at `at` and is `key`.
fn value_place_here(text: &Vec<char>, at: usize, awaits: Awaits, key: &[char]) -> (place: Option<
    usize,
>)
    requires
        at < text.len(),
    ensures
        spec_end(place) == value_here(text@, at as int, awaits, key@),
        place matches Some(p) ==> p <= text.len(),
{
    let awaited = match awaits {
        Awaits::Key => true,
        Awaits::KeyOrClose => true,
        _ => false,
    };
    if !awaited || text[at] != '"' {
        return None;
    }
    match decode_string(text, at + 1) {
        Some((name, quote)) => {
            if name.len() == key.len() && matches_at(&name, 0, key) {
                assert(name@.subrange(0, name@.len() as int) =~= name@);
                let colon = skip_spaces(text, quote + 1);
                if colon < text.len() && text[colon] == ':' {
                    Some(skip_spaces(text, colon + 1))
                } else {
                    None
                }
            } else {
                assert(name@ != key@) by {
                    if name@ == key@ {
                        assert(name@.subrange(0, name@.len() as int) =~= name@);
                    }
                }
                None
            }
        },
        None => None,
    }
}

/// Finds the places at which the values under `key` begin among the members
/// of the value that stands at `from`.
pub fn find_members(text: &Vec<char>, from: usize, key: &[char]) -> (found: Vec<usize>)
    requires
        from <= text.len(),
    ensures
        places_of(found@) == members_under(text@, from as int, key@),
        forall|k: int| 0 <= k < found.len() ==> #[trigger] found@[k] <= text.len(),
{
    let mut found: Vec<usize> = Vec::new();
    let mut at: usize = from;
    let mut open: Vec<bool> = Vec::new();
    let mut awaits = Awaits::Value;
    assert(places_of(found@) + values_under(text@, at as int, open@, awaits, key@, 1)
        =~= members_under(text@, from as int, key@));
    while at < text.len()
        invariant
            at <= text.len(),
            members_under(text@, from as int, key@) == places_of(found@) + values_under(
                text@,
                at as int,
                open@,
                awaits,
                key@,
                1,
            ),
            forall|k: int| 0 <= k < found.len() ==> #[trigger] found@[k] <= text.len(),
        decreases text.len() - at,
    {
        let ghost before = values_under(text@, at as int, open@, awaits, key@, 1);
        let ghost had = found@;
        let here = if open.len() == 1 {
            value_place_here(text, at, awaits, key)
        } else {
            None
        };
        match step_at(text, at, &mut open, awaits) {
            Some((next, then)) => {
                match here {
                    Some(place) => {
                        found.push(place);
                        assert(places_of(found@) =~= places_of(had).push(place as int));
                    },
                    None => {},
                }
                at = next;
                awaits = then;
                assert(places_of(had) + before =~= places_of(found@) + values_under(
                    text@,
                    at as int,
                    open@,
                    awaits,
                    key@,
                    1,
                ));
            },
            None => {
                assert(places_of(found@) + before =~= places_of(found@));
                return found;
            },
        }
    }
    assert(places_of(found@) + Seq::<int>::empty() =~= places_of(found@));
    found
}

/// Whether `c` stands in a string as itself.
pub open spec fn is_plain(c: char) -> bool {
    c != '"' && c != '\\' && (c as u32) >= 0x20
}

/// A string of characters that stand as themselves is read as it stands,
/// up to its quote.
pub proof fn lemma_decode_plain(s: Seq<char>, at: int, n: nat)
    requires
        0 <= at,
        at + n < s.len(),
        forall|k: int| at <= k < at + n ==> is_plain(#[trigger] s[k]),
        s[at + n] == '"',
    ensures
        decode_from(s, at) == Some((s.subrange(at, at + n), at + n)),
    decreases n,
{
    if n > 0 {
        assert(is_plain(s[at]));
        lemma_decode_plain(s, at + 1, (n - 1) as nat);
        assert(seq![s[at]] + s.subrange(at + 1, at + n) =~= s.subrange(at, at + n));
    } else {
        assert(s.subrange(at, at) =~= Seq::<char>::empty());
    }
}

/// The step over a space.
pub proof fn lemma_step_space(s: Seq<char>, at: int, open: Seq<bool>, awaits: Awaits)
    requires
        0 <= at < s.len(),
        is_space(s[at]),
    ensures
        step(s, at, open, awaits) == Some((at + 1, open, awaits)),
{
    reveal(step);
}

/// The step into an object.
pub proof fn lemma_step_into_object(s: Seq<char>, at: int, open: Seq<bool>)
    requires
        0 <= at < s.len(),
        s[at] == '{',
    ensures
        step(s, at, open, Awaits::Value) == Some((at + 1, open.push(true), Awaits::KeyOrClose)),
{
    reveal(step);
}

/// The step over a key.
pub proof fn lemma_step_key(s: Seq<char>, at: int, open: Seq<bool>, awaits: Awaits, end: int)
    requires
        0 <= at < s.len(),
        s[at] == '"',
        awaits is Key || awaits is KeyOrClose,
        string_end(s, at) == Some(end),
    ensures
        step(s, at, open, awaits) == Some((end, open, Awaits::Colon)),
{
    reveal(step);
}

/// The step over the colon behind a key.
pub proof fn lemma_step_colon(s: Seq<char>, at: int, open: Seq<bool>)
    requires
        0 <= at < s.len(),
        s[at] == ':',
    ensures
        step(s, at, open, Awaits::Colon) == Some((at + 1, open, Awaits::Value)),
{
    reveal(step);
}

/// The step over a string that is a value.
pub proof fn lemma_step_string(s: Seq<char>, at: int, open: Seq<bool>, end: int)
    requires
        0 <= at < s.len(),
        s[at] == '"',
        string_end(s, at) == Some(end),
    ensures
        step(s, at, open, Awaits::Value) == Some((end, open, after_value(open))),
{
    reveal(step);
}

/// The step over the comma between two members of an object.
pub proof fn lemma_step_comma(s: Seq<char>, at: int, open: Seq<bool>)
    requires
        0 <= at < s.len(),
        s[at] == ',',
        open.len() > 0,
        open.last(),
    ensures
        step(s, at, open, Awaits::CommaOrClose) == Some((at + 1, open, Awaits::Key)),
{
    reveal(step);
}

/// The step out of an object.
pub proof fn lemma_step_out_of_object(s: Seq<char>, at: int, open: Seq<bool>)
    requires
        0 <= at < s.len(),
        s[at] == '}',
        open.len() > 0,
        open.last(),
    ensures
        step(s, at, open, Awaits::CommaOrClose) == Some(
            (at + 1, open.drop_last(), after_value(open.drop_last())),
        ),
{
    reveal(step);
}

/// No step is made where nothing more is awaited and something stands.
pub proof fn lemma_step_behind_end(s: Seq<char>, at: int, open: Seq<bool>)
    requires
        0 <= at < s.len(),
        !is_space(s[at]),
    ensures
        step(s, at, open, Awaits::End) is None,
{
    reveal(step);
}

} // verus!
