//! The pointer: the small record that is committed in place of a tracked
//! file, and its text form.
//!
//! The text form is written in one layout,
//!
//! ```text
//! {
//!   "version": "V1",
//!   "pointer": {
//!     "hash": "<hash>"
//!   }
//! }
//! ```
//!
//! in which the two strings are escaped as JSON strings are. This is the
//! layout that is written, and a text in it is read back to the pointer it
//! was written for, byte for byte.
//!
//! A record is read in any spacing and any order of its keys: the string
//! under the key `version` is its tag, and the string under the key `hash`
//! of the object under the key `pointer` is its hash. The text is a
//! pointer where the tag is the one version that is known, each of the
//! three keys stands once, and the whole text is well-formed JSON. A
//! record of another version is told as such however it is laid out, and
//! whatever else it holds.

use vstd::prelude::*;
use crate::error::GfsError;
use crate::json::{find_members, is_well_formed, members_under, places_of, well_formed};
use crate::written::{lemma_one_line_is_record, lemma_rendered_is_record};
use crate::text::{chars_of, hex_digit, hex_digit_of, string_of};

verus! {

/// Contains a hash that points to the reference hash.
#[derive(Debug, PartialEq, Eq, Clone)]
pub enum Pointer {
    V1 { hash: String },
}

/// The text before the version tag.
pub open spec fn record_head() -> Seq<char> {
    seq![
        '{', '\n', ' ', ' ', '"', 'v', 'e', 'r', 's', 'i', 'o', 'n', '"', ':', ' ', '"',
    ]
}

/// The text between the version tag and the hash.
pub open spec fn record_middle() -> Seq<char> {
    seq![
        '"', ',', '\n', ' ', ' ', '"', 'p', 'o', 'i', 'n', 't', 'e', 'r', '"', ':', ' ', '{',
        '\n', ' ', ' ', ' ', ' ', '"', 'h', 'a', 's', 'h', '"', ':', ' ', '"',
    ]
}

/// The text after the hash.
pub open spec fn record_tail() -> Seq<char> {
    seq!['"', '\n', ' ', ' ', '}', '\n', '}']
}

/// The tag of the one version there is.
pub open spec fn version_one() -> Seq<char> {
    seq!['V', '1']
}

/// How one character stands inside a quoted string: the quote, the backslash
/// and the control characters are written as escapes, every other character
/// as itself.
pub open spec fn escape_char(c: char) -> Seq<char> {
    if c == '"' {
        seq!['\\', '"']
    } else if c == '\\' {
        seq!['\\', '\\']
    } else if c == '\u{08}' {
        seq!['\\', 'b']
    } else if c == '\u{0c}' {
        seq!['\\', 'f']
    } else if c == '\n' {
        seq!['\\', 'n']
    } else if c == '\r' {
        seq!['\\', 'r']
    } else if c == '\t' {
        seq!['\\', 't']
    } else if (c as u32) < 0x20 {
        seq![
            '\\',
            'u',
            '0',
            '0',
            hex_digit((c as u32) as int / 16),
            hex_digit((c as u32) as int % 16),
        ]
    } else {
        seq![c]
    }
}

/// How a string stands between its quotes.
pub open spec fn escaped(s: Seq<char>) -> Seq<char>
    decreases s.len(),
{
    if s.len() == 0 {
        Seq::empty()
    } else {
        escape_char(s.first()) + escaped(s.drop_first())
    }
}

/// The text of a record with the given version tag and hash.
pub open spec fn record(tag: Seq<char>, hash: Seq<char>) -> Seq<char> {
    record_head() + escaped(tag) + record_middle() + escaped(hash) + record_tail()
}

/// The text of the pointer that holds `hash`.
pub open spec fn rendered(hash: Seq<char>) -> Seq<char> {
    record(version_one(), hash)
}

/// The text before the hash in a record that is written on one line.
pub open spec fn line_opening() -> Seq<char> {
    seq![
        '{', '"', 'v', 'e', 'r', 's', 'i', 'o', 'n', '"', ':', '"', 'V', '1', '"', ',', '"', 'p',
        'o', 'i', 'n', 't', 'e', 'r', '"', ':', '{', '"', 'h', 'a', 's', 'h', '"', ':', '"',
    ]
}

/// The text after the hash in a record that is written on one line.
pub open spec fn line_closing() -> Seq<char> {
    seq!['"', '}', '}']
}

/// The record of the pointer that holds `hash`, written on one line without
/// any space.
pub open spec fn rendered_on_one_line(hash: Seq<char>) -> Seq<char> {
    line_opening() + escaped(hash) + line_closing()
}

/// Whether `part` stands in `s` at `at`.
pub open spec fn stands_at(s: Seq<char>, at: int, part: Seq<char>) -> bool {
    0 <= at && at + part.len() <= s.len() && s.subrange(at, at + part.len()) == part
}

/// Whether `c` is a character that may stand between the tokens of a record.
pub open spec fn is_space(c: char) -> bool {
    c == ' ' || c == '\n' || c == '\r' || c == '\t'
}

/// The first place from `at` on at which no space stands.
pub open spec fn skip_space(s: Seq<char>, at: int) -> int
    decreases s.len() - at,
{
    if 0 <= at < s.len() && is_space(s[at]) {
        skip_space(s, at + 1)
    } else {
        at
    }
}

/// The value of a hexadecimal digit in either case, if `c` is one.
pub open spec fn hex_of(c: char) -> Option<int> {
    if '0' <= c && c <= '9' {
        Some((c as u32) as int - 0x30)
    } else if 'a' <= c && c <= 'f' {
        Some((c as u32) as int - 0x61 + 10)
    } else if 'A' <= c && c <= 'F' {
        Some((c as u32) as int - 0x41 + 10)
    } else {
        None
    }
}

/// The number that the four hexadecimal digits at `at` stand for.
pub open spec fn code_at(s: Seq<char>, at: int) -> Option<int> {
    if 0 <= at && at + 4 <= s.len() {
        match (hex_of(s[at]), hex_of(s[at + 1]), hex_of(s[at + 2]), hex_of(s[at + 3])) {
            (Some(a), Some(b), Some(c), Some(d)) => Some(((a * 16 + b) * 16 + c) * 16 + d),
            _ => None,
        }
    } else {
        None
    }
}

/// The character that stands at `at` inside a quoted string, with the
/// number of characters it takes there. A character stands as itself, as
/// one of the escapes of two characters, or as its code in four hexadecimal
/// digits behind `\u`; a character above the codes of four digits stands as
/// two such codes, the first from `D800` to `DBFF` and the second from
/// `DC00` to `DFFF`. None for the closing quote, for a control character
/// that is not escaped, and for what is no escape.
pub open spec fn decode_at(s: Seq<char>, at: int) -> Option<(char, int)> {
    if at < 0 || at >= s.len() {
        None
    } else if s[at] == '\\' {
        if at + 1 >= s.len() {
            None
        } else if s[at + 1] == '"' {
            Some(('"', 2))
        } else if s[at + 1] == '\\' {
            Some(('\\', 2))
        } else if s[at + 1] == '/' {
            Some(('/', 2))
        } else if s[at + 1] == 'b' {
            Some(('\u{08}', 2))
        } else if s[at + 1] == 'f' {
            Some(('\u{0c}', 2))
        } else if s[at + 1] == 'n' {
            Some(('\n', 2))
        } else if s[at + 1] == 'r' {
            Some(('\r', 2))
        } else if s[at + 1] == 't' {
            Some(('\t', 2))
        } else if s[at + 1] == 'u' {
            match code_at(s, at + 2) {
                None => None,
                Some(first) => if 0xD800 <= first <= 0xDBFF {
                    if at + 7 < s.len() && s[at + 6] == '\\' && s[at + 7] == 'u' {
                        match code_at(s, at + 8) {
                            Some(second) => if 0xDC00 <= second <= 0xDFFF {
                                Some(
                                    (
                                        ((0x10000 + (first - 0xD800) * 0x400 + (second
                                            - 0xDC00)) as u32) as char,
                                        12,
                                    ),
                                )
                            } else {
                                None
                            },
                            None => None,
                        }
                    } else {
                        None
                    }
                } else if 0xDC00 <= first <= 0xDFFF {
                    None
                } else {
                    Some(((first as u32) as char, 6))
                },
            }
        } else {
            None
        }
    } else if s[at] == '"' || (s[at] as u32) < 0x20 {
        None
    } else {
        Some((s[at], 1))
    }
}

/// The string that stands from `at` up to its closing quote, with the place
/// of that quote; none where no string stands there.
pub open spec fn decode_from(s: Seq<char>, at: int) -> Option<(Seq<char>, int)>
    decreases s.len() - at,
{
    if at < 0 || at >= s.len() {
        None
    } else if s[at] == '"' {
        Some((Seq::empty(), at))
    } else {
        match decode_at(s, at) {
            None => None,
            Some((c, width)) => if width > 0 {
                match decode_from(s, at + width) {
                    None => None,
                    Some((rest, end)) => Some((seq![c] + rest, end)),
                }
            } else {
                None
            },
        }
    }
}

/// The key under which a record holds its version tag.
pub open spec fn version_key() -> Seq<char> {
    seq!['v', 'e', 'r', 's', 'i', 'o', 'n']
}

/// The key under which a record holds what it points to.
pub open spec fn pointer_key() -> Seq<char> {
    seq!['p', 'o', 'i', 'n', 't', 'e', 'r']
}

/// The key under which a record holds its hash.
pub open spec fn hash_key() -> Seq<char> {
    seq!['h', 'a', 's', 'h']
}

/// The first of the places, where there is any.
pub open spec fn first_of(places: Seq<int>) -> Option<int> {
    if places.len() > 0 {
        Some(places[0])
    } else {
        None
    }
}

/// The one place, where there is one and no other.
pub open spec fn only_of(places: Seq<int>) -> Option<int> {
    if places.len() == 1 {
        Some(places[0])
    } else {
        None
    }
}

/// The string that stands at `place` in its quotes.
pub open spec fn string_at(s: Seq<char>, place: Option<int>) -> Option<Seq<char>> {
    match place {
        Some(p) => if stands_at(s, p, seq!['"']) {
            match decode_from(s, p + 1) {
                Some((text, _)) => Some(text),
                None => None,
            }
        } else {
            None
        },
        None => None,
    }
}

/// The version tag that a record names, whatever its spacing and the order
/// of its keys: the string under the first key `version` among the members
/// of the record. None where the text is no record, or holds no such
/// string.
pub open spec fn version_tag(s: Seq<char>) -> Option<Seq<char>> {
    string_at(s, first_of(members_under(s, 0, version_key())))
}

/// Whether just one member of the record has the key `version`.
pub open spec fn named_once(s: Seq<char>) -> bool {
    members_under(s, 0, version_key()).len() == 1
}

/// The hash that a record holds, whatever its spacing and the order of its
/// keys: the string under the one key `hash` among the members of the
/// object under the one key `pointer` among the members of the record.
/// None where the record holds no such string, or more than one member
/// under one of the two keys.
pub open spec fn hash_value(s: Seq<char>) -> Option<Seq<char>> {
    match only_of(members_under(s, 0, pointer_key())) {
        Some(inner) => if stands_at(s, inner, seq!['{']) {
            string_at(s, only_of(members_under(s, inner, hash_key())))
        } else {
            None
        },
        None => None,
    }
}

/// What `text` reads as: the hash of a pointer where it is a record, in
/// any spacing and any order of its keys, that names the one version that
/// is known, once, holds a hash, and is well-formed JSON; the failure of
/// another version where the tag it names first is another, whatever else
/// it holds; else the failure of a text that is no pointer.
pub open spec fn parsed(text: Seq<char>) -> Result<Seq<char>, GfsError> {
    match version_tag(text) {
        None => Err(GfsError::MalformedPointer),
        Some(tag) => if tag != version_one() {
            Err(GfsError::UnsupportedPointerVersion)
        } else {
            match hash_value(text) {
                Some(hash) => if named_once(text) && well_formed(text) {
                    Ok(hash)
                } else {
                    Err(GfsError::MalformedPointer)
                },
                None => Err(GfsError::MalformedPointer),
            }
        },
    }
}

impl Pointer {
    /// The hash that the pointer holds, as a sequence of characters.
    pub open spec fn hash_view(self) -> Seq<char> {
        match self {
            Pointer::V1 { hash } => hash@,
        }
    }

    /// The text form of the pointer.
    pub open spec fn text(self) -> Seq<char> {
        rendered(self.hash_view())
    }

    /// The pointer to the manifest with the given hash.
    pub fn from_hash(hash: &str) -> (pointer: Pointer)
        ensures
            pointer.hash_view() == hash@,
    {
        Pointer::V1 { hash: String::from_str(hash) }
    }

    /// The hash of the manifest that the pointer names.
    pub fn hash(&self) -> (hash: &str)
        ensures
            hash@ == self.hash_view(),
    {
        match self {
            Pointer::V1 { hash } => hash.as_str(),
        }
    }

    /// Writes the pointer as text. The text is read back as the pointer.
    pub fn render(&self) -> (text: String)
        ensures
            text@ == self.text(),
            parsed(text@) == Ok::<Seq<char>, GfsError>(self.hash_view()),
    {
        proof {
            lemma_parse_rendered(self.hash_view());
        }
        let mut out: Vec<char> = Vec::new();
        push_head(&mut out);
        push_escaped(&mut out, &version_one_chars());
        push_middle(&mut out);
        let hash = chars_of(self.hash());
        push_escaped(&mut out, &hash);
        push_tail(&mut out);
        string_of(&out)
    }

    /// Reads a pointer from its text, which is a record in any spacing and
    /// any order of its keys.
    ///
    /// The text is the pointer with the hash it holds where it names the
    /// version that is known, once, holds a hash, and is well-formed JSON; so
    /// every text that `render` wrote is read back to the pointer
    /// it was written for. A record that names another version is refused
    /// as such. Any other text is malformed.
    pub fn parse(text: &str) -> (result: Result<Pointer, GfsError>)
        ensures
            match result {
                Ok(pointer) => parsed(text@) == Ok::<Seq<char>, GfsError>(pointer.hash_view()),
                Err(e) => parsed(text@) == Err::<Seq<char>, GfsError>(e),
            },
            result is Ok <==> version_tag(text@) == Some(version_one()) && named_once(text@)
                && hash_value(text@) is Some && well_formed(text@),
            result matches Ok(pointer) ==> hash_value(text@) == Some(pointer.hash_view()),
            forall|hash: Seq<char>|
                text@ == rendered(hash) || text@ == rendered_on_one_line(hash) ==> (
                result matches Ok(pointer) && pointer.hash_view() == hash),
            result matches Err(GfsError::UnsupportedPointerVersion) <==> (version_tag(
                text@,
            ) matches Some(tag) && tag != version_one()),
            result matches Err(e) ==> e == GfsError::UnsupportedPointerVersion || e
                == GfsError::MalformedPointer,
    {
        let chars = chars_of(text);
        proof {
            lemma_parsed_characterised(chars@);
        }
        match read_record(&chars) {
            Ok(hash) => Ok(Pointer::V1 { hash: string_of(&hash) }),
            Err(e) => Err(e),
        }
    }

}

impl TryFrom<&str> for Pointer {
    type Error = GfsError;

    /// Reads a pointer from its text, as `Pointer::parse` does.
    fn try_from(value: &str) -> (result: Result<Pointer, GfsError>)
        ensures
            match result {
                Ok(pointer) => parsed(value@) == Ok::<Seq<char>, GfsError>(pointer.hash_view()),
                Err(e) => parsed(value@) == Err::<Seq<char>, GfsError>(e),
            },
            forall|hash: Seq<char>|
                value@ == rendered(hash) || value@ == rendered_on_one_line(hash) ==> (
                result matches Ok(pointer) && pointer.hash_view() == hash),
    {
        Pointer::parse(value)
    }
}

/// Nothing is claimed through the spec function of the conversion: what
/// `try_from` returns is stated at `try_from` itself, over `parsed`.
impl vstd::std_specs::convert::TryFromSpecImpl<&str> for Pointer {
    open spec fn obeys_try_from_spec() -> bool {
        false
    }

    open spec fn try_from_spec(value: &str) -> Result<Pointer, GfsError> {
        Err(GfsError::MalformedPointer)
    }
}

impl TryFrom<&Pointer> for String {
    type Error = GfsError;

    /// Writes the pointer as text, as `Pointer::render` does. It does not
    /// fail.
    fn try_from(value: &Pointer) -> (result: Result<String, GfsError>)
        ensures
            result matches Ok(text) && text@ == value.text() && parsed(text@) == Ok::<
                Seq<char>,
                GfsError,
            >(value.hash_view()),
    {
        Ok(value.render())
    }
}

/// Nothing is claimed through the spec function of the conversion: what
/// `try_from` returns is stated at `try_from` itself, over `rendered`.
impl vstd::std_specs::convert::TryFromSpecImpl<&Pointer> for String {
    open spec fn obeys_try_from_spec() -> bool {
        false
    }

    open spec fn try_from_spec(value: &Pointer) -> Result<String, GfsError> {
        Err(GfsError::MalformedPointer)
    }
}

/// `char::from_u32` gives the character with the given code, and none for
/// a number that is the code of no character: one of the surrogates, or one
/// above the last code.
pub assume_specification[ char::from_u32 ](code: u32) -> (c: Option<char>)
    ensures
        c == if vstd::utf8::is_scalar(code) {
            Some(code as char)
        } else {
            None::<char>
        },
;

/// Finds the first place from `at` on at which no space stands.
pub(crate) fn skip_spaces(text: &Vec<char>, at: usize) -> (place: usize)
    requires
        at <= text.len(),
    ensures
        place == skip_space(text@, at as int),
        at <= place <= text.len(),
{
    let mut place: usize = at;
    while place < text.len() && (text[place] == ' ' || text[place] == '\n' || text[place] == '\r'
        || text[place] == '\t')
        invariant
            at <= place <= text.len(),
            skip_space(text@, at as int) == skip_space(text@, place as int),
        decreases text.len() - place,
    {
        place += 1;
    }
    place
}

/// The value of a hexadecimal digit in either case, if `c` is one.
fn hex_of_char(c: char) -> (value: Option<u32>)
    ensures
        value matches Some(v) ==> hex_of(c) == Some(v as int) && v < 16,
        value is None ==> hex_of(c) is None,
{
    if '0' <= c && c <= '9' {
        Some(c as u32 - 0x30)
    } else if 'a' <= c && c <= 'f' {
        Some(c as u32 - 0x61 + 10)
    } else if 'A' <= c && c <= 'F' {
        Some(c as u32 - 0x41 + 10)
    } else {
        None
    }
}

/// Reads the number that the four hexadecimal digits at `at` stand for.
fn read_code(text: &Vec<char>, at: usize) -> (code: Option<u32>)
    ensures
        code matches Some(v) ==> code_at(text@, at as int) == Some(v as int) && v <= 0xFFFF,
        code is None ==> code_at(text@, at as int) is None,
{
    if text.len() < 4 || at > text.len() - 4 {
        return None;
    }
    match (
        hex_of_char(text[at]),
        hex_of_char(text[at + 1]),
        hex_of_char(text[at + 2]),
        hex_of_char(text[at + 3]),
    ) {
        (Some(a), Some(b), Some(c), Some(d)) => Some(((a * 16 + b) * 16 + c) * 16 + d),
        _ => None,
    }
}

/// Reads the character that stands at `at` inside a quoted string.
fn decode_char(text: &Vec<char>, at: usize) -> (found: Option<(char, usize)>)
    ensures
        match found {
            Some((c, width)) => decode_at(text@, at as int) == Some((c, width as int)) && 0
                < width && at + width <= text.len(),
            None => decode_at(text@, at as int) is None,
        },
{
    if at >= text.len() {
        return None;
    }
    let first = text[at];
    if first == '\\' {
        if text.len() - at < 2 {
            return None;
        }
        let second = text[at + 1];
        if second == '"' {
            Some(('"', 2))
        } else if second == '\\' {
            Some(('\\', 2))
        } else if second == '/' {
            Some(('/', 2))
        } else if second == 'b' {
            Some(('\u{08}', 2))
        } else if second == 'f' {
            Some(('\u{0c}', 2))
        } else if second == 'n' {
            Some(('\n', 2))
        } else if second == 'r' {
            Some(('\r', 2))
        } else if second == 't' {
            Some(('\t', 2))
        } else if second == 'u' {
            match read_code(text, at + 2) {
                None => None,
                Some(first_code) => {
                    if 0xD800 <= first_code && first_code <= 0xDBFF {
                        if text.len() - at > 7 && text[at + 6] == '\\' && text[at + 7] == 'u' {
                            match read_code(text, at + 8) {
                                Some(second_code) => {
                                    if 0xDC00 <= second_code && second_code <= 0xDFFF {
                                        let code: u32 = 0x10000 + (first_code - 0xD800) * 0x400
                                            + (second_code - 0xDC00);
                                        match char::from_u32(code) {
                                            Some(c) => Some((c, 12)),
                                            None => None,
                                        }
                                    } else {
                                        None
                                    }
                                },
                                None => None,
                            }
                        } else {
                            None
                        }
                    } else if 0xDC00 <= first_code && first_code <= 0xDFFF {
                        None
                    } else {
                        match char::from_u32(first_code) {
                            Some(c) => Some((c, 6)),
                            None => None,
                        }
                    }
                },
            }
        } else {
            None
        }
    } else if first == '"' || (first as u32) < 0x20 {
        None
    } else {
        Some((first, 1))
    }
}

/// Reads the string that stands from `at` up to its closing quote.
pub(crate) fn decode_string(text: &Vec<char>, at: usize) -> (found: Option<(Vec<char>, usize)>)
    ensures
        match found {
            Some((s, end)) => decode_from(text@, at as int) == Some((s@, end as int)) && at
                <= end < text.len(),
            None => decode_from(text@, at as int) is None,
        },
{
    let mut s: Vec<char> = Vec::new();
    let mut i: usize = at;
    loop
        invariant
            at <= i,
            match decode_from(text@, i as int) {
                Some((rest, end)) => decode_from(text@, at as int) == Some((s@ + rest, end)),
                None => decode_from(text@, at as int) is None,
            },
        decreases text.len() - i,
    {
        if i >= text.len() {
            return None;
        }
        if text[i] == '"' {
            assert(s@ + Seq::<char>::empty() == s@);
            return Some((s, i));
        }
        match decode_char(text, i) {
            None => {
                return None;
            },
            Some((c, width)) => {
                proof {
                    if decode_from(text@, i + width) is Some {
                        let (rest, _) = decode_from(text@, i + width)->0;
                        assert(s@ + (seq![c] + rest) == s@.push(c) + rest);
                    }
                }
                s.push(c);
                i += width;
            },
        }
    }
}

/// Reads the string that stands at `place` in its quotes.
fn read_string_at(text: &Vec<char>, place: usize) -> (found: Option<Vec<char>>)
    requires
        place <= text.len(),
    ensures
        match found {
            Some(s) => string_at(text@, Some(place as int)) == Some(s@),
            None => string_at(text@, Some(place as int)) is None,
        },
{
    let quote_part: [char; 1] = ['"'];
    assert(quote_part@ =~= seq!['"']);
    if !matches_at(text, place, &quote_part) {
        return None;
    }
    match decode_string(text, place + 1) {
        Some((s, _)) => Some(s),
        None => None,
    }
}

/// Reads the version tag that a record names, and whether it names it once.
fn read_tag(text: &Vec<char>) -> (found: (Option<Vec<char>>, bool))
    ensures
        match found.0 {
            Some(t) => version_tag(text@) == Some(t@),
            None => version_tag(text@) is None,
        },
        found.1 == named_once(text@),
{
    let version_part: [char; 7] = ['v', 'e', 'r', 's', 'i', 'o', 'n'];
    assert(version_part@ =~= version_key());
    let places = find_members(text, 0, &version_part);
    assert(places@.len() == places_of(places@).len());
    if places.len() == 0 {
        return (None, false);
    }
    assert(places_of(places@)[0] == places@[0] as int);
    (read_string_at(text, places[0]), places.len() == 1)
}

/// Reads the hash that a record holds.
fn read_hash(text: &Vec<char>) -> (hash: Option<Vec<char>>)
    ensures
        match hash {
            Some(h) => hash_value(text@) == Some(h@),
            None => hash_value(text@) is None,
        },
{
    let brace_part: [char; 1] = ['{'];
    let pointer_part: [char; 7] = ['p', 'o', 'i', 'n', 't', 'e', 'r'];
    let hash_part: [char; 4] = ['h', 'a', 's', 'h'];
    assert(brace_part@ =~= seq!['{']);
    assert(pointer_part@ =~= pointer_key());
    assert(hash_part@ =~= hash_key());
    let outer = find_members(text, 0, &pointer_part);
    assert(outer@.len() == places_of(outer@).len());
    if outer.len() != 1 {
        return None;
    }
    assert(places_of(outer@)[0] == outer@[0] as int);
    let inner = outer[0];
    if !matches_at(text, inner, &brace_part) {
        return None;
    }
    let places = find_members(text, inner, &hash_part);
    assert(places@.len() == places_of(places@).len());
    if places.len() != 1 {
        return None;
    }
    assert(places_of(places@)[0] == places@[0] as int);
    read_string_at(text, places[0])
}

/// Reads a record in any layout.
fn read_record(text: &Vec<char>) -> (result: Result<Vec<char>, GfsError>)
    ensures
        match result {
            Ok(hash) => parsed(text@) == Ok::<Seq<char>, GfsError>(hash@),
            Err(e) => parsed(text@) == Err::<Seq<char>, GfsError>(e),
        },
{
    let (tag, once) = read_tag(text);
    match tag {
        None => Err(GfsError::MalformedPointer),
        Some(tag) => {
            if !is_version_one(&tag) {
                Err(GfsError::UnsupportedPointerVersion)
            } else {
                match read_hash(text) {
                    Some(hash) => {
                        if once && is_well_formed(text) {
                            Ok(hash)
                        } else {
                            Err(GfsError::MalformedPointer)
                        }
                    },
                    None => Err(GfsError::MalformedPointer),
                }
            }
        },
    }
}

/// Whether `tag` is the tag of the one version that is known.
fn is_version_one(tag: &Vec<char>) -> (known: bool)
    ensures
        known == (tag@ == version_one()),
{
    if tag.len() == 2 && tag[0] == 'V' && tag[1] == '1' {
        assert(tag@ =~= version_one());
        true
    } else {
        assert(tag@ != version_one()) by {
            if tag@ == version_one() {
                assert(tag@.len() == 2 && tag@[0] == 'V' && tag@[1] == '1');
            }
        }
        false
    }
}

/// Whether `part` stands in `text` at `at`.
pub(crate) fn matches_at(text: &Vec<char>, at: usize, part: &[char]) -> (found: bool)
    ensures
        found == stands_at(text@, at as int, part@),
{
    if part.len() > text.len() || at > text.len() - part.len() {
        return false;
    }
    let mut i: usize = 0;
    while i < part.len()
        invariant
            i <= part.len(),
            at + part.len() <= text.len(),
            text@.subrange(at as int, at + i) == part@.take(i as int),
        decreases part.len() - i,
    {
        if text[at + i] != part[i] {
            assert(text@.subrange(at as int, at + part.len())[i as int] != part@[i as int]);
            return false;
        }
        assert(text@.subrange(at as int, at + i + 1) == text@.subrange(at as int, at + i).push(
            text@[at + i],
        ));
        assert(part@.take(i + 1) == part@.take(i as int).push(part@[i as int]));
        i += 1;
    }
    assert(part@.take(part.len() as int) == part@);
    true
}

fn version_one_chars() -> (tag: Vec<char>)
    ensures
        tag@ == version_one(),
{
    let mut tag: Vec<char> = Vec::new();
    tag.push('V');
    tag.push('1');
    assert(tag@ =~= version_one());
    tag
}

fn push_all(out: &mut Vec<char>, part: &[char])
    ensures
        final(out)@ == old(out)@ + part@,
{
    let mut i: usize = 0;
    while i < part.len()
        invariant
            i <= part.len(),
            out@ == old(out)@ + part@.take(i as int),
        decreases part.len() - i,
    {
        out.push(part[i]);
        assert(part@.take(i + 1) == part@.take(i as int).push(part@[i as int]));
        i += 1;
    }
    assert(part@.take(part.len() as int) == part@);
}

fn push_head(out: &mut Vec<char>)
    ensures
        final(out)@ == old(out)@ + record_head(),
{
    let part: [char; 16] = [
        '{', '\n', ' ', ' ', '"', 'v', 'e', 'r', 's', 'i', 'o', 'n', '"', ':', ' ', '"',
    ];
    assert(part@ =~= record_head());
    push_all(out, &part);
}

fn push_middle(out: &mut Vec<char>)
    ensures
        final(out)@ == old(out)@ + record_middle(),
{
    let part: [char; 31] = [
        '"', ',', '\n', ' ', ' ', '"', 'p', 'o', 'i', 'n', 't', 'e', 'r', '"', ':', ' ', '{',
        '\n', ' ', ' ', ' ', ' ', '"', 'h', 'a', 's', 'h', '"', ':', ' ', '"',
    ];
    assert(part@ =~= record_middle());
    push_all(out, &part);
}

fn push_tail(out: &mut Vec<char>)
    ensures
        final(out)@ == old(out)@ + record_tail(),
{
    let part: [char; 7] = ['"', '\n', ' ', ' ', '}', '\n', '}'];
    assert(part@ =~= record_tail());
    push_all(out, &part);
}

fn push_escaped_char(out: &mut Vec<char>, c: char)
    ensures
        final(out)@ == old(out)@ + escape_char(c),
{
    let ghost before = out@;
    if c == '"' {
        out.push('\\');
        out.push('"');
    } else if c == '\\' {
        out.push('\\');
        out.push('\\');
    } else if c == '\u{08}' {
        out.push('\\');
        out.push('b');
    } else if c == '\u{0c}' {
        out.push('\\');
        out.push('f');
    } else if c == '\n' {
        out.push('\\');
        out.push('n');
    } else if c == '\r' {
        out.push('\\');
        out.push('r');
    } else if c == '\t' {
        out.push('\\');
        out.push('t');
    } else if (c as u32) < 0x20 {
        let code: u32 = c as u32;
        out.push('\\');
        out.push('u');
        out.push('0');
        out.push('0');
        out.push(hex_digit_of((code / 16) as u8));
        out.push(hex_digit_of((code % 16) as u8));
    } else {
        out.push(c);
    }
    assert(out@ =~= before + escape_char(c));
}

fn push_escaped(out: &mut Vec<char>, s: &Vec<char>)
    ensures
        final(out)@ == old(out)@ + escaped(s@),
{
    let mut i: usize = 0;
    while i < s.len()
        invariant
            i <= s.len(),
            out@ == old(out)@ + escaped(s@.take(i as int)),
        decreases s.len() - i,
    {
        proof {
            lemma_escaped_push(s@.take(i as int), s@[i as int]);
            assert(s@.take(i + 1) == s@.take(i as int).push(s@[i as int]));
        }
        push_escaped_char(out, s[i]);
        i += 1;
    }
    assert(s@.take(s.len() as int) == s@);
}

/// Escaping goes through a concatenation.
pub proof fn lemma_escaped_concat(a: Seq<char>, b: Seq<char>)
    ensures
        escaped(a + b) == escaped(a) + escaped(b),
    decreases a.len(),
{
    if a.len() == 0 {
        assert(a + b == b);
        assert(escaped(a) + escaped(b) == escaped(b));
    } else {
        assert((a + b).first() == a.first());
        assert((a + b).drop_first() == a.drop_first() + b);
        lemma_escaped_concat(a.drop_first(), b);
        assert(escape_char(a.first()) + (escaped(a.drop_first()) + escaped(b)) == (escape_char(
            a.first(),
        ) + escaped(a.drop_first())) + escaped(b));
    }
}

proof fn lemma_escaped_push(a: Seq<char>, c: char)
    ensures
        escaped(a.push(c)) == escaped(a) + escape_char(c),
{
    let one = seq![c];
    assert(a.push(c) == a + one);
    lemma_escaped_concat(a, one);
    assert(one.drop_first() == Seq::<char>::empty());
    assert(escaped(one.drop_first()) == Seq::<char>::empty());
    assert(escaped(one) == escape_char(c) + Seq::<char>::empty());
    assert(escape_char(c) + Seq::<char>::empty() == escape_char(c));
}

/// The text of a pointer is as long as its hash asks, and no longer: fifty-six
/// characters and the hash, of which each character takes one place, or up
/// to six where it is written as an escape. What the manifest lists has no
/// part in it.
pub proof fn lemma_rendered_len(hash: Seq<char>)
    ensures
        rendered(hash).len() == 56 + escaped(hash).len(),
        hash.len() <= escaped(hash).len() <= 6 * hash.len(),
    decreases hash.len(),
{
    assert(escaped(version_one()).len() == 2) by {
        let tag = version_one();
        assert(tag.drop_first() =~= seq!['1']);
        assert(seq!['1'].drop_first() =~= Seq::<char>::empty());
        assert(escaped(seq!['1']) =~= escape_char('1') + escaped(Seq::<char>::empty()));
        assert(escaped(tag) =~= escape_char('V') + escaped(seq!['1']));
    }
    if hash.len() > 0 {
        lemma_rendered_len(hash.drop_first());
    }
}

/// What `escape_char` writes for a character is read back as that character.
pub proof fn lemma_decode_at_escape(s: Seq<char>, at: int, c: char)
    requires
        stands_at(s, at, escape_char(c)),
    ensures
        decode_at(s, at) == Some((c, escape_char(c).len() as int)),
        s[at] != '"',
{
    let e = escape_char(c);
    assert(e.len() == 1 || e.len() == 2 || e.len() == 6);
    assert(forall|k: int| 0 <= k < e.len() ==> s[at + k] == #[trigger] s.subrange(
        at,
        at + e.len(),
    )[k]);
    assert(forall|k: int| 0 <= k < e.len() ==> s[at + k] == #[trigger] e[k]);
    if e.len() == 6 {
        let code = (c as u32) as int;
        assert(code < 0x20);
        assert(s[at] == e[0] && s[at + 1] == e[1] && s[at + 2] == e[2] && s[at + 3] == e[3]
            && s[at + 4] == e[4] && s[at + 5] == e[5]);
        assert(hex_of(hex_digit(code / 16)) == Some(code / 16));
        assert(hex_of(hex_digit(code % 16)) == Some(code % 16));
        assert(code_at(s, at + 2) == Some(code));
        assert((code as u32) as char == c);
    } else if e.len() == 2 {
        assert(s[at] == e[0] && s[at + 1] == e[1]);
    } else {
        assert(s[at] == e[0]);
    }
}

/// A string that stands escaped at a place, with a quote behind it, is read
/// back from there, up to that quote.
pub proof fn lemma_decode_escaped(s: Seq<char>, at: int, t: Seq<char>)
    requires
        stands_at(s, at, escaped(t) + seq!['"']),
    ensures
        decode_from(s, at) == Some((t, at + escaped(t).len())),
    decreases t.len(),
{
    let whole = escaped(t) + seq!['"'];
    if t.len() == 0 {
        assert(s[at] == s.subrange(at, at + whole.len())[0]);
    } else {
        let c = t.first();
        let e = escape_char(c);
        let rest = t.drop_first();
        let tail = escaped(rest) + seq!['"'];
        let window = s.subrange(at, at + whole.len());
        assert(whole =~= e + tail);
        assert(s.subrange(at, at + e.len()) =~= window.subrange(0, e.len() as int));
        assert(window.subrange(0, e.len() as int) =~= e);
        assert(stands_at(s, at, e));
        lemma_decode_at_escape(s, at, c);
        assert(s.subrange(at + e.len(), at + e.len() + tail.len()) =~= window.subrange(
            e.len() as int,
            whole.len() as int,
        ));
        assert(window.subrange(e.len() as int, whole.len() as int) =~= tail);
        assert(stands_at(s, at + e.len(), tail));
        lemma_decode_escaped(s, at + e.len(), rest);
        assert(seq![c] + rest == t);
    }
}

/// The text written for a pointer is read back as that pointer.
pub proof fn lemma_parse_rendered(hash: Seq<char>)
    ensures
        parsed(rendered(hash)) == Ok::<Seq<char>, GfsError>(hash),
{
    lemma_rendered_is_record(hash);
}

/// A text that was written for a pointer is written again, byte for byte,
/// for the pointer that it is read as.
pub proof fn lemma_render_parsed(text: Seq<char>, hash: Seq<char>)
    requires
        text == rendered(hash),
    ensures
        parsed(text) matches Ok(read) && rendered(read) == text,
{
    lemma_rendered_is_record(hash);
}

/// `parsed` reads every text that is written for a pointer back to that
/// pointer, and the same record on one line too. It reads a text as a
/// pointer exactly where the text is a record that names the one version,
/// once, holds a hash and is well-formed JSON, and tells another version by
/// the tag that the text names first.
pub proof fn lemma_parsed_characterised(text: Seq<char>)
    ensures
        forall|hash: Seq<char>|
            text == rendered(hash) || text == rendered_on_one_line(hash) ==> parsed(text) == Ok::<
                Seq<char>,
                GfsError,
            >(hash),
        parsed(text) is Ok <==> version_tag(text) == Some(version_one()) && named_once(text)
            && hash_value(text) is Some && well_formed(text),
        parsed(text) matches Ok(hash) ==> hash_value(text) == Some(hash),
        parsed(text) == Err::<Seq<char>, GfsError>(GfsError::UnsupportedPointerVersion) <==> (
        version_tag(text) matches Some(tag) && tag != version_one()),
        parsed(text) matches Err(e) ==> e == GfsError::UnsupportedPointerVersion || e
            == GfsError::MalformedPointer,
{
    assert forall|hash: Seq<char>|
        text == rendered(hash) || text == rendered_on_one_line(hash) implies parsed(text) == Ok::<
        Seq<char>,
        GfsError,
    >(hash) by {
        lemma_rendered_is_record(hash);
        lemma_one_line_is_record(hash);
    }
}

} // verus!
