//! The records that are written are read: the text that is written for a
//! pointer, and the same record on one line, are followed step by step
//! through the reading, which finds in each the one version, once, and the
//! hash, and finds it well formed.

use vstd::prelude::*;
use crate::error::GfsError;
use crate::json::{
    after_value, lemma_decode_plain, lemma_step_behind_end, lemma_step_colon, lemma_step_comma,
    lemma_step_into_object, lemma_step_key, lemma_step_out_of_object, lemma_step_space,
    lemma_step_string, members_under, step, string_end, value_behind, value_here, values_under,
    well_formed, well_formed_from, Awaits,
};
use crate::pointer::{
    decode_from, escape_char, escaped, hash_key, hash_value, lemma_decode_escaped, line_closing,
    line_opening, named_once, parsed, pointer_key, record_head, record_middle, record_tail,
    rendered, rendered_on_one_line, skip_space, stands_at, version_key, version_one,
    version_tag,
};

verus! {

/// The text before the hash of a pointer: the opening, the tag of the one
/// version, and what stands between the tag and the hash.
pub open spec fn written_opening() -> Seq<char> {
    seq![
        '{', '\n', ' ', ' ', '"', 'v', 'e', 'r', 's', 'i', 'o', 'n', '"', ':', ' ', '"', 'V',
        '1', '"', ',', '\n', ' ', ' ', '"', 'p', 'o', 'i', 'n', 't', 'e', 'r', '"', ':', ' ',
        '{', '\n', ' ', ' ', ' ', ' ', '"', 'h', 'a', 's', 'h', '"', ':', ' ', '"',
    ]
}

/// The text behind the quote that ends the hash of a pointer.
pub open spec fn written_closing() -> Seq<char> {
    seq!['\n', ' ', ' ', '}', '\n', '}']
}

/// The text behind the quote that ends the hash in a record on one line.
pub open spec fn line_end() -> Seq<char> {
    seq!['}', '}']
}

/// Nothing is open: the place lies in no object and no array.
pub open spec fn nothing_open() -> Seq<bool> {
    Seq::empty()
}

/// What is open inside the record: the record.
pub open spec fn in_record() -> Seq<bool> {
    seq![true]
}

/// What is open inside the object that holds the hash: the record, and
/// that object.
pub open spec fn in_pointer() -> Seq<bool> {
    seq![true, true]
}

/// The tag of the one version stands in a string as itself.
proof fn lemma_escaped_version_one()
    ensures
        escaped(version_one()) == version_one(),
{
    let tag = version_one();
    assert(tag.drop_first() =~= seq!['1']);
    assert(seq!['1'].drop_first() =~= Seq::<char>::empty());
    assert(escaped(seq!['1']) =~= escape_char('1') + escaped(Seq::<char>::empty()));
    assert(escaped(tag) =~= escape_char('V') + escaped(seq!['1']));
}

/// The characters of a text that opens as the text of a pointer does.
proof fn lemma_written_chars(text: Seq<char>)
    requires
        stands_at(text, 0, written_opening()),
    ensures
        text.len() >= 49,
        text[0] == '{',
        text[1] == '\n',
        text[2] == ' ',
        text[3] == ' ',
        text[4] == '"',
        text[5] == 'v',
        text[6] == 'e',
        text[7] == 'r',
        text[8] == 's',
        text[9] == 'i',
        text[10] == 'o',
        text[11] == 'n',
        text[12] == '"',
        text[13] == ':',
        text[14] == ' ',
        text[15] == '"',
        text[16] == 'V',
        text[17] == '1',
        text[18] == '"',
        text[19] == ',',
        text[20] == '\n',
        text[21] == ' ',
        text[22] == ' ',
        text[23] == '"',
        text[24] == 'p',
        text[25] == 'o',
        text[26] == 'i',
        text[27] == 'n',
        text[28] == 't',
        text[29] == 'e',
        text[30] == 'r',
        text[31] == '"',
        text[32] == ':',
        text[33] == ' ',
        text[34] == '{',
        text[35] == '\n',
        text[36] == ' ',
        text[37] == ' ',
        text[38] == ' ',
        text[39] == ' ',
        text[40] == '"',
        text[41] == 'h',
        text[42] == 'a',
        text[43] == 's',
        text[44] == 'h',
        text[45] == '"',
        text[46] == ':',
        text[47] == ' ',
        text[48] == '"',
{
    let opening = written_opening();
    assert(opening.len() == 49);
    assert forall|k: int| 0 <= k < 49 implies #[trigger] text[k] == opening[k] by {
        assert(text[k] == text.subrange(0, 49)[k]);
    }
}

/// The characters of a text that ends as the text of a pointer does.
proof fn lemma_written_end(text: Seq<char>, end: int)
    requires
        stands_at(text, end, written_closing()),
    ensures
        text[end] == '\n',
        text[end + 1] == ' ',
        text[end + 2] == ' ',
        text[end + 3] == '}',
        text[end + 4] == '\n',
        text[end + 5] == '}',
{
    let closing = written_closing();
    assert(closing.len() == 6);
    assert forall|k: int| 0 <= k < 6 implies text[end + k] == #[trigger] closing[k] by {
        assert(text[end + k] == text.subrange(end, end + 6)[k]);
    }
    assert(text[end] == closing[0]);
    assert(text[end + 1] == closing[1]);
    assert(text[end + 2] == closing[2]);
    assert(text[end + 3] == closing[3]);
    assert(text[end + 4] == closing[4]);
    assert(text[end + 5] == closing[5]);
}

/// The keys and the tag of a text that opens as the text of a pointer does.
proof fn lemma_written_tokens(text: Seq<char>)
    requires
        stands_at(text, 0, written_opening()),
    ensures
        string_end(text, 4) == Some(13int),
        decode_from(text, 5) == Some((version_key(), 12int)),
        value_behind(text, 13) == Some(15int),
        string_end(text, 15) == Some(19int),
        decode_from(text, 16) == Some((version_one(), 18int)),
        string_end(text, 23) == Some(32int),
        decode_from(text, 24) == Some((pointer_key(), 31int)),
        value_behind(text, 32) == Some(34int),
        string_end(text, 40) == Some(46int),
        decode_from(text, 41) == Some((hash_key(), 45int)),
        value_behind(text, 46) == Some(48int),
{
    lemma_written_chars(text);
    reveal_with_fuel(skip_space, 3);
    lemma_decode_plain(text, 5, 7);
    assert(text.subrange(5, 12) =~= version_key());
    lemma_decode_plain(text, 16, 2);
    assert(text.subrange(16, 18) =~= version_one());
    lemma_decode_plain(text, 24, 7);
    assert(text.subrange(24, 31) =~= pointer_key());
    lemma_decode_plain(text, 41, 4);
    assert(text.subrange(41, 45) =~= hash_key());
}

/// The steps of the reading through a text that opens as the text of a pointer does, up to
/// the hash.
proof fn lemma_written_steps_before(text: Seq<char>)
    requires
        stands_at(text, 0, written_opening()),
    ensures
        step(text, 0, nothing_open(), Awaits::Value) == Some((1int, in_record(), Awaits::KeyOrClose)),
        step(text, 1, in_record(), Awaits::KeyOrClose) == Some((2int, in_record(), Awaits::KeyOrClose)),
        step(text, 2, in_record(), Awaits::KeyOrClose) == Some((3int, in_record(), Awaits::KeyOrClose)),
        step(text, 3, in_record(), Awaits::KeyOrClose) == Some((4int, in_record(), Awaits::KeyOrClose)),
        step(text, 4, in_record(), Awaits::KeyOrClose) == Some((13int, in_record(), Awaits::Colon)),
        step(text, 13, in_record(), Awaits::Colon) == Some((14int, in_record(), Awaits::Value)),
        step(text, 14, in_record(), Awaits::Value) == Some((15int, in_record(), Awaits::Value)),
        step(text, 15, in_record(), Awaits::Value) == Some((19int, in_record(), Awaits::CommaOrClose)),
        step(text, 19, in_record(), Awaits::CommaOrClose) == Some((20int, in_record(), Awaits::Key)),
        step(text, 20, in_record(), Awaits::Key) == Some((21int, in_record(), Awaits::Key)),
        step(text, 21, in_record(), Awaits::Key) == Some((22int, in_record(), Awaits::Key)),
        step(text, 22, in_record(), Awaits::Key) == Some((23int, in_record(), Awaits::Key)),
        step(text, 23, in_record(), Awaits::Key) == Some((32int, in_record(), Awaits::Colon)),
        step(text, 32, in_record(), Awaits::Colon) == Some((33int, in_record(), Awaits::Value)),
        step(text, 33, in_record(), Awaits::Value) == Some((34int, in_record(), Awaits::Value)),
        step(text, 34, in_record(), Awaits::Value) == Some((35int, in_pointer(), Awaits::KeyOrClose)),
        step(text, 35, in_pointer(), Awaits::KeyOrClose) == Some((36int, in_pointer(), Awaits::KeyOrClose)),
        step(text, 36, in_pointer(), Awaits::KeyOrClose) == Some((37int, in_pointer(), Awaits::KeyOrClose)),
        step(text, 37, in_pointer(), Awaits::KeyOrClose) == Some((38int, in_pointer(), Awaits::KeyOrClose)),
        step(text, 38, in_pointer(), Awaits::KeyOrClose) == Some((39int, in_pointer(), Awaits::KeyOrClose)),
        step(text, 39, in_pointer(), Awaits::KeyOrClose) == Some((40int, in_pointer(), Awaits::KeyOrClose)),
        step(text, 40, in_pointer(), Awaits::KeyOrClose) == Some((46int, in_pointer(), Awaits::Colon)),
        step(text, 46, in_pointer(), Awaits::Colon) == Some((47int, in_pointer(), Awaits::Value)),
        step(text, 47, in_pointer(), Awaits::Value) == Some((48int, in_pointer(), Awaits::Value)),
{
    let empty = nothing_open();
    let outer = in_record();
    let inner = in_pointer();
    assert(empty.push(true) =~= outer);
    assert(outer.push(true) =~= inner);
    assert(inner.drop_last() =~= outer);
    assert(outer.drop_last() =~= empty);
    assert(outer.last() && inner.last());
    assert(after_value(empty) == Awaits::End && after_value(outer) == Awaits::CommaOrClose
        && after_value(inner) == Awaits::CommaOrClose);
    lemma_written_chars(text);
    lemma_written_tokens(text);
    lemma_step_into_object(text, 0, nothing_open());
    lemma_step_space(text, 1, in_record(), Awaits::KeyOrClose);
    lemma_step_space(text, 2, in_record(), Awaits::KeyOrClose);
    lemma_step_space(text, 3, in_record(), Awaits::KeyOrClose);
    lemma_step_key(text, 4, in_record(), Awaits::KeyOrClose, 13);
    lemma_step_colon(text, 13, in_record());
    lemma_step_space(text, 14, in_record(), Awaits::Value);
    lemma_step_string(text, 15, in_record(), 19);
    lemma_step_comma(text, 19, in_record());
    lemma_step_space(text, 20, in_record(), Awaits::Key);
    lemma_step_space(text, 21, in_record(), Awaits::Key);
    lemma_step_space(text, 22, in_record(), Awaits::Key);
    lemma_step_key(text, 23, in_record(), Awaits::Key, 32);
    lemma_step_colon(text, 32, in_record());
    lemma_step_space(text, 33, in_record(), Awaits::Value);
    lemma_step_into_object(text, 34, in_record());
    lemma_step_space(text, 35, in_pointer(), Awaits::KeyOrClose);
    lemma_step_space(text, 36, in_pointer(), Awaits::KeyOrClose);
    lemma_step_space(text, 37, in_pointer(), Awaits::KeyOrClose);
    lemma_step_space(text, 38, in_pointer(), Awaits::KeyOrClose);
    lemma_step_space(text, 39, in_pointer(), Awaits::KeyOrClose);
    lemma_step_key(text, 40, in_pointer(), Awaits::KeyOrClose, 46);
    lemma_step_colon(text, 46, in_pointer());
    lemma_step_space(text, 47, in_pointer(), Awaits::Value);
}

/// The steps of the reading through a text that ends as the text of a pointer does, from the
/// hash on.
proof fn lemma_written_steps_after(text: Seq<char>, end: int)
    requires
        stands_at(text, 0, written_opening()),
        string_end(text, 48) == Some(end),
        48 < end,
        stands_at(text, end, written_closing()),
        end + 6 == text.len(),
    ensures
        step(text, 48, in_pointer(), Awaits::Value) == Some((end, in_pointer(), Awaits::CommaOrClose)),
        step(text, end, in_pointer(), Awaits::CommaOrClose) == Some((end + 1, in_pointer(), Awaits::CommaOrClose)),
        step(text, end + 1, in_pointer(), Awaits::CommaOrClose) == Some((end + 2, in_pointer(), Awaits::CommaOrClose)),
        step(text, end + 2, in_pointer(), Awaits::CommaOrClose) == Some((end + 3, in_pointer(), Awaits::CommaOrClose)),
        step(text, end + 3, in_pointer(), Awaits::CommaOrClose) == Some((end + 4, in_record(), Awaits::CommaOrClose)),
        step(text, end + 4, in_record(), Awaits::CommaOrClose) == Some((end + 5, in_record(), Awaits::CommaOrClose)),
        step(text, end + 5, in_record(), Awaits::CommaOrClose) == Some((end + 6, nothing_open(), Awaits::End)),
{
    let empty = nothing_open();
    let outer = in_record();
    let inner = in_pointer();
    assert(empty.push(true) =~= outer);
    assert(outer.push(true) =~= inner);
    assert(inner.drop_last() =~= outer);
    assert(outer.drop_last() =~= empty);
    assert(outer.last() && inner.last());
    assert(after_value(empty) == Awaits::End && after_value(outer) == Awaits::CommaOrClose
        && after_value(inner) == Awaits::CommaOrClose);
    lemma_written_chars(text);
    lemma_written_tokens(text);
    lemma_written_end(text, end);
    lemma_step_string(text, 48, in_pointer(), end);
    lemma_step_space(text, end, in_pointer(), Awaits::CommaOrClose);
    lemma_step_space(text, end + 1, in_pointer(), Awaits::CommaOrClose);
    lemma_step_space(text, end + 2, in_pointer(), Awaits::CommaOrClose);
    lemma_step_out_of_object(text, end + 3, in_pointer());
    lemma_step_space(text, end + 4, in_record(), Awaits::CommaOrClose);
    lemma_step_out_of_object(text, end + 5, in_record());
}

/// The steps of the reading through the object that holds the hash, in a
/// text that opens and ends as the text of a pointer does.
proof fn lemma_written_steps_inside(text: Seq<char>, end: int)
    requires
        stands_at(text, 0, written_opening()),
        string_end(text, 48) == Some(end),
        48 < end,
        stands_at(text, end, written_closing()),
        end + 6 == text.len(),
    ensures
        step(text, 34, nothing_open(), Awaits::Value) == Some((35int, in_record(), Awaits::KeyOrClose)),
        step(text, 35, in_record(), Awaits::KeyOrClose) == Some((36int, in_record(), Awaits::KeyOrClose)),
        step(text, 36, in_record(), Awaits::KeyOrClose) == Some((37int, in_record(), Awaits::KeyOrClose)),
        step(text, 37, in_record(), Awaits::KeyOrClose) == Some((38int, in_record(), Awaits::KeyOrClose)),
        step(text, 38, in_record(), Awaits::KeyOrClose) == Some((39int, in_record(), Awaits::KeyOrClose)),
        step(text, 39, in_record(), Awaits::KeyOrClose) == Some((40int, in_record(), Awaits::KeyOrClose)),
        step(text, 40, in_record(), Awaits::KeyOrClose) == Some((46int, in_record(), Awaits::Colon)),
        step(text, 46, in_record(), Awaits::Colon) == Some((47int, in_record(), Awaits::Value)),
        step(text, 47, in_record(), Awaits::Value) == Some((48int, in_record(), Awaits::Value)),
        step(text, 48, in_record(), Awaits::Value) == Some((end, in_record(), Awaits::CommaOrClose)),
        step(text, end, in_record(), Awaits::CommaOrClose) == Some((end + 1, in_record(), Awaits::CommaOrClose)),
        step(text, end + 1, in_record(), Awaits::CommaOrClose) == Some((end + 2, in_record(), Awaits::CommaOrClose)),
        step(text, end + 2, in_record(), Awaits::CommaOrClose) == Some((end + 3, in_record(), Awaits::CommaOrClose)),
        step(text, end + 3, in_record(), Awaits::CommaOrClose) == Some((end + 4, nothing_open(), Awaits::End)),
        step(text, end + 4, nothing_open(), Awaits::End) == Some((end + 5, nothing_open(), Awaits::End)),
        step(text, end + 5, nothing_open(), Awaits::End) is None,
{
    let empty = nothing_open();
    let outer = in_record();
    let inner = in_pointer();
    assert(empty.push(true) =~= outer);
    assert(outer.push(true) =~= inner);
    assert(inner.drop_last() =~= outer);
    assert(outer.drop_last() =~= empty);
    assert(outer.last() && inner.last());
    assert(after_value(empty) == Awaits::End && after_value(outer) == Awaits::CommaOrClose
        && after_value(inner) == Awaits::CommaOrClose);
    lemma_written_chars(text);
    lemma_written_tokens(text);
    lemma_written_end(text, end);
    lemma_step_into_object(text, 34, nothing_open());
    lemma_step_space(text, 35, in_record(), Awaits::KeyOrClose);
    lemma_step_space(text, 36, in_record(), Awaits::KeyOrClose);
    lemma_step_space(text, 37, in_record(), Awaits::KeyOrClose);
    lemma_step_space(text, 38, in_record(), Awaits::KeyOrClose);
    lemma_step_space(text, 39, in_record(), Awaits::KeyOrClose);
    lemma_step_key(text, 40, in_record(), Awaits::KeyOrClose, 46);
    lemma_step_colon(text, 46, in_record());
    lemma_step_space(text, 47, in_record(), Awaits::Value);
    lemma_step_string(text, 48, in_record(), end);
    lemma_step_space(text, end, in_record(), Awaits::CommaOrClose);
    lemma_step_space(text, end + 1, in_record(), Awaits::CommaOrClose);
    lemma_step_space(text, end + 2, in_record(), Awaits::CommaOrClose);
    lemma_step_out_of_object(text, end + 3, in_record());
    lemma_step_space(text, end + 4, nothing_open(), Awaits::End);
    lemma_step_behind_end(text, end + 5, nothing_open());
}

/// A text that opens and ends as the text of a pointer does, with a string between, is
/// well formed.
proof fn lemma_written_well_formed(text: Seq<char>, end: int)
    requires
        stands_at(text, 0, written_opening()),
        string_end(text, 48) == Some(end),
        48 < end,
        stands_at(text, end, written_closing()),
        end + 6 == text.len(),
    ensures
        well_formed(text),
{
    let empty = nothing_open();
    let outer = in_record();
    let inner = in_pointer();
    lemma_written_chars(text);
    lemma_written_end(text, end);
    lemma_written_tokens(text);
    lemma_written_steps_before(text);
    lemma_written_steps_after(text, end);
    assert(well_formed_from(text, end + 6, nothing_open(), Awaits::End));
    assert(well_formed_from(text, end + 5, in_record(), Awaits::CommaOrClose) == well_formed_from(
        text,
        end + 6,
        nothing_open(),
        Awaits::End,
    ));
    assert(well_formed_from(text, end + 4, in_record(), Awaits::CommaOrClose) == well_formed_from(
        text,
        end + 5,
        in_record(),
        Awaits::CommaOrClose,
    ));
    assert(well_formed_from(text, end + 3, in_pointer(), Awaits::CommaOrClose) == well_formed_from(
        text,
        end + 4,
        in_record(),
        Awaits::CommaOrClose,
    ));
    assert(well_formed_from(text, end + 2, in_pointer(), Awaits::CommaOrClose) == well_formed_from(
        text,
        end + 3,
        in_pointer(),
        Awaits::CommaOrClose,
    ));
    assert(well_formed_from(text, end + 1, in_pointer(), Awaits::CommaOrClose) == well_formed_from(
        text,
        end + 2,
        in_pointer(),
        Awaits::CommaOrClose,
    ));
    assert(well_formed_from(text, end, in_pointer(), Awaits::CommaOrClose) == well_formed_from(
        text,
        end + 1,
        in_pointer(),
        Awaits::CommaOrClose,
    ));
    assert(well_formed_from(text, 48, in_pointer(), Awaits::Value) == well_formed_from(
        text,
        end,
        in_pointer(),
        Awaits::CommaOrClose,
    ));
    assert(well_formed_from(text, 47, in_pointer(), Awaits::Value) == well_formed_from(
        text,
        48,
        in_pointer(),
        Awaits::Value,
    ));
    assert(well_formed_from(text, 46, in_pointer(), Awaits::Colon) == well_formed_from(
        text,
        47,
        in_pointer(),
        Awaits::Value,
    ));
    assert(well_formed_from(text, 40, in_pointer(), Awaits::KeyOrClose) == well_formed_from(
        text,
        46,
        in_pointer(),
        Awaits::Colon,
    ));
    assert(well_formed_from(text, 39, in_pointer(), Awaits::KeyOrClose) == well_formed_from(
        text,
        40,
        in_pointer(),
        Awaits::KeyOrClose,
    ));
    assert(well_formed_from(text, 38, in_pointer(), Awaits::KeyOrClose) == well_formed_from(
        text,
        39,
        in_pointer(),
        Awaits::KeyOrClose,
    ));
    assert(well_formed_from(text, 37, in_pointer(), Awaits::KeyOrClose) == well_formed_from(
        text,
        38,
        in_pointer(),
        Awaits::KeyOrClose,
    ));
    assert(well_formed_from(text, 36, in_pointer(), Awaits::KeyOrClose) == well_formed_from(
        text,
        37,
        in_pointer(),
        Awaits::KeyOrClose,
    ));
    assert(well_formed_from(text, 35, in_pointer(), Awaits::KeyOrClose) == well_formed_from(
        text,
        36,
        in_pointer(),
        Awaits::KeyOrClose,
    ));
    assert(well_formed_from(text, 34, in_record(), Awaits::Value) == well_formed_from(
        text,
        35,
        in_pointer(),
        Awaits::KeyOrClose,
    ));
    assert(well_formed_from(text, 33, in_record(), Awaits::Value) == well_formed_from(
        text,
        34,
        in_record(),
        Awaits::Value,
    ));
    assert(well_formed_from(text, 32, in_record(), Awaits::Colon) == well_formed_from(
        text,
        33,
        in_record(),
        Awaits::Value,
    ));
    assert(well_formed_from(text, 23, in_record(), Awaits::Key) == well_formed_from(
        text,
        32,
        in_record(),
        Awaits::Colon,
    ));
    assert(well_formed_from(text, 22, in_record(), Awaits::Key) == well_formed_from(
        text,
        23,
        in_record(),
        Awaits::Key,
    ));
    assert(well_formed_from(text, 21, in_record(), Awaits::Key) == well_formed_from(
        text,
        22,
        in_record(),
        Awaits::Key,
    ));
    assert(well_formed_from(text, 20, in_record(), Awaits::Key) == well_formed_from(
        text,
        21,
        in_record(),
        Awaits::Key,
    ));
    assert(well_formed_from(text, 19, in_record(), Awaits::CommaOrClose) == well_formed_from(
        text,
        20,
        in_record(),
        Awaits::Key,
    ));
    assert(well_formed_from(text, 15, in_record(), Awaits::Value) == well_formed_from(
        text,
        19,
        in_record(),
        Awaits::CommaOrClose,
    ));
    assert(well_formed_from(text, 14, in_record(), Awaits::Value) == well_formed_from(
        text,
        15,
        in_record(),
        Awaits::Value,
    ));
    assert(well_formed_from(text, 13, in_record(), Awaits::Colon) == well_formed_from(
        text,
        14,
        in_record(),
        Awaits::Value,
    ));
    assert(well_formed_from(text, 4, in_record(), Awaits::KeyOrClose) == well_formed_from(
        text,
        13,
        in_record(),
        Awaits::Colon,
    ));
    assert(well_formed_from(text, 3, in_record(), Awaits::KeyOrClose) == well_formed_from(
        text,
        4,
        in_record(),
        Awaits::KeyOrClose,
    ));
    assert(well_formed_from(text, 2, in_record(), Awaits::KeyOrClose) == well_formed_from(
        text,
        3,
        in_record(),
        Awaits::KeyOrClose,
    ));
    assert(well_formed_from(text, 1, in_record(), Awaits::KeyOrClose) == well_formed_from(
        text,
        2,
        in_record(),
        Awaits::KeyOrClose,
    ));
    assert(well_formed_from(text, 0, nothing_open(), Awaits::Value) == well_formed_from(
        text,
        1,
        in_record(),
        Awaits::KeyOrClose,
    ));
}

/// The values under a key among the members of a record that opens and
/// ends as the text of a pointer does.
proof fn lemma_written_members(text: Seq<char>, end: int, key: Seq<char>)
    requires
        stands_at(text, 0, written_opening()),
        string_end(text, 48) == Some(end),
        48 < end,
        stands_at(text, end, written_closing()),
        end + 6 == text.len(),
    ensures
        members_under(text, 0, key) =~= (if key == version_key() {
            seq![15int]
        } else {
            Seq::<int>::empty()
        }) + (if key == pointer_key() {
            seq![34int]
        } else {
            Seq::<int>::empty()
        }),
{
    let empty = nothing_open();
    let outer = in_record();
    let inner = in_pointer();
    lemma_written_chars(text);
    lemma_written_end(text, end);
    lemma_written_tokens(text);
    lemma_written_steps_before(text);
    lemma_written_steps_after(text, end);
    assert(values_under(text, end + 6, nothing_open(), Awaits::End, key, 1) =~= Seq::<int>::empty());
    assert(values_under(text, end + 5, in_record(), Awaits::CommaOrClose, key, 1) == values_under(
        text,
        end + 6,
        nothing_open(),
        Awaits::End,
        key,
        1,
    ));
    assert(values_under(text, end + 4, in_record(), Awaits::CommaOrClose, key, 1) == values_under(
        text,
        end + 5,
        in_record(),
        Awaits::CommaOrClose,
        key,
        1,
    ));
    assert(values_under(text, end + 3, in_pointer(), Awaits::CommaOrClose, key, 1) == values_under(
        text,
        end + 4,
        in_record(),
        Awaits::CommaOrClose,
        key,
        1,
    ));
    assert(values_under(text, end + 2, in_pointer(), Awaits::CommaOrClose, key, 1) == values_under(
        text,
        end + 3,
        in_pointer(),
        Awaits::CommaOrClose,
        key,
        1,
    ));
    assert(values_under(text, end + 1, in_pointer(), Awaits::CommaOrClose, key, 1) == values_under(
        text,
        end + 2,
        in_pointer(),
        Awaits::CommaOrClose,
        key,
        1,
    ));
    assert(values_under(text, end, in_pointer(), Awaits::CommaOrClose, key, 1) == values_under(
        text,
        end + 1,
        in_pointer(),
        Awaits::CommaOrClose,
        key,
        1,
    ));
    assert(values_under(text, 48, in_pointer(), Awaits::Value, key, 1) == values_under(
        text,
        end,
        in_pointer(),
        Awaits::CommaOrClose,
        key,
        1,
    ));
    assert(values_under(text, 47, in_pointer(), Awaits::Value, key, 1) == values_under(
        text,
        48,
        in_pointer(),
        Awaits::Value,
        key,
        1,
    ));
    assert(values_under(text, 46, in_pointer(), Awaits::Colon, key, 1) == values_under(
        text,
        47,
        in_pointer(),
        Awaits::Value,
        key,
        1,
    ));
    assert(values_under(text, 40, in_pointer(), Awaits::KeyOrClose, key, 1) == values_under(
        text,
        46,
        in_pointer(),
        Awaits::Colon,
        key,
        1,
    ));
    assert(values_under(text, 39, in_pointer(), Awaits::KeyOrClose, key, 1) == values_under(
        text,
        40,
        in_pointer(),
        Awaits::KeyOrClose,
        key,
        1,
    ));
    assert(values_under(text, 38, in_pointer(), Awaits::KeyOrClose, key, 1) == values_under(
        text,
        39,
        in_pointer(),
        Awaits::KeyOrClose,
        key,
        1,
    ));
    assert(values_under(text, 37, in_pointer(), Awaits::KeyOrClose, key, 1) == values_under(
        text,
        38,
        in_pointer(),
        Awaits::KeyOrClose,
        key,
        1,
    ));
    assert(values_under(text, 36, in_pointer(), Awaits::KeyOrClose, key, 1) == values_under(
        text,
        37,
        in_pointer(),
        Awaits::KeyOrClose,
        key,
        1,
    ));
    assert(values_under(text, 35, in_pointer(), Awaits::KeyOrClose, key, 1) == values_under(
        text,
        36,
        in_pointer(),
        Awaits::KeyOrClose,
        key,
        1,
    ));
    assert(values_under(text, 34, in_record(), Awaits::Value, key, 1) == values_under(
        text,
        35,
        in_pointer(),
        Awaits::KeyOrClose,
        key,
        1,
    ));
    assert(values_under(text, 33, in_record(), Awaits::Value, key, 1) == values_under(
        text,
        34,
        in_record(),
        Awaits::Value,
        key,
        1,
    ));
    assert(values_under(text, 32, in_record(), Awaits::Colon, key, 1) == values_under(
        text,
        33,
        in_record(),
        Awaits::Value,
        key,
        1,
    ));
    assert(values_under(text, 23, in_record(), Awaits::Key, key, 1) =~= (if key == pointer_key() {
        seq![34int]
    } else {
        Seq::<int>::empty()
    }) + values_under(
        text,
        32,
        in_record(),
        Awaits::Colon,
        key,
        1,
    ));
    assert(value_here(text, 23, Awaits::Key, key) == if key == pointer_key() {
        Some(34int)
    } else {
        None
    });
    assert(values_under(text, 22, in_record(), Awaits::Key, key, 1) == values_under(
        text,
        23,
        in_record(),
        Awaits::Key,
        key,
        1,
    ));
    assert(values_under(text, 21, in_record(), Awaits::Key, key, 1) == values_under(
        text,
        22,
        in_record(),
        Awaits::Key,
        key,
        1,
    ));
    assert(values_under(text, 20, in_record(), Awaits::Key, key, 1) == values_under(
        text,
        21,
        in_record(),
        Awaits::Key,
        key,
        1,
    ));
    assert(values_under(text, 19, in_record(), Awaits::CommaOrClose, key, 1) == values_under(
        text,
        20,
        in_record(),
        Awaits::Key,
        key,
        1,
    ));
    assert(values_under(text, 15, in_record(), Awaits::Value, key, 1) == values_under(
        text,
        19,
        in_record(),
        Awaits::CommaOrClose,
        key,
        1,
    ));
    assert(values_under(text, 14, in_record(), Awaits::Value, key, 1) == values_under(
        text,
        15,
        in_record(),
        Awaits::Value,
        key,
        1,
    ));
    assert(values_under(text, 13, in_record(), Awaits::Colon, key, 1) == values_under(
        text,
        14,
        in_record(),
        Awaits::Value,
        key,
        1,
    ));
    assert(values_under(text, 4, in_record(), Awaits::KeyOrClose, key, 1) =~= (if key == version_key() {
        seq![15int]
    } else {
        Seq::<int>::empty()
    }) + values_under(
        text,
        13,
        in_record(),
        Awaits::Colon,
        key,
        1,
    ));
    assert(value_here(text, 4, Awaits::KeyOrClose, key) == if key == version_key() {
        Some(15int)
    } else {
        None
    });
    assert(values_under(text, 3, in_record(), Awaits::KeyOrClose, key, 1) == values_under(
        text,
        4,
        in_record(),
        Awaits::KeyOrClose,
        key,
        1,
    ));
    assert(values_under(text, 2, in_record(), Awaits::KeyOrClose, key, 1) == values_under(
        text,
        3,
        in_record(),
        Awaits::KeyOrClose,
        key,
        1,
    ));
    assert(values_under(text, 1, in_record(), Awaits::KeyOrClose, key, 1) == values_under(
        text,
        2,
        in_record(),
        Awaits::KeyOrClose,
        key,
        1,
    ));
    assert(values_under(text, 0, nothing_open(), Awaits::Value, key, 1) == values_under(
        text,
        1,
        in_record(),
        Awaits::KeyOrClose,
        key,
        1,
    ));
}

/// The values under a key among the members of the object that holds the
/// hash, in a record that opens and ends as the text of a pointer does.
proof fn lemma_written_members_inside(text: Seq<char>, end: int, key: Seq<char>)
    requires
        stands_at(text, 0, written_opening()),
        string_end(text, 48) == Some(end),
        48 < end,
        stands_at(text, end, written_closing()),
        end + 6 == text.len(),
    ensures
        members_under(text, 34, key) =~= (if key == hash_key() {
            seq![48int]
        } else {
            Seq::<int>::empty()
        }),
{
    let empty = nothing_open();
    let outer = in_record();
    let inner = in_pointer();
    lemma_written_chars(text);
    lemma_written_end(text, end);
    lemma_written_tokens(text);
    lemma_written_steps_inside(text, end);
    assert(values_under(text, end + 5, nothing_open(), Awaits::End, key, 1) =~= Seq::<int>::empty());
    assert(values_under(text, end + 4, nothing_open(), Awaits::End, key, 1) == values_under(
        text,
        end + 5,
        nothing_open(),
        Awaits::End,
        key,
        1,
    ));
    assert(values_under(text, end + 3, in_record(), Awaits::CommaOrClose, key, 1) == values_under(
        text,
        end + 4,
        nothing_open(),
        Awaits::End,
        key,
        1,
    ));
    assert(values_under(text, end + 2, in_record(), Awaits::CommaOrClose, key, 1) == values_under(
        text,
        end + 3,
        in_record(),
        Awaits::CommaOrClose,
        key,
        1,
    ));
    assert(values_under(text, end + 1, in_record(), Awaits::CommaOrClose, key, 1) == values_under(
        text,
        end + 2,
        in_record(),
        Awaits::CommaOrClose,
        key,
        1,
    ));
    assert(values_under(text, end, in_record(), Awaits::CommaOrClose, key, 1) == values_under(
        text,
        end + 1,
        in_record(),
        Awaits::CommaOrClose,
        key,
        1,
    ));
    assert(values_under(text, 48, in_record(), Awaits::Value, key, 1) == values_under(
        text,
        end,
        in_record(),
        Awaits::CommaOrClose,
        key,
        1,
    ));
    assert(values_under(text, 47, in_record(), Awaits::Value, key, 1) == values_under(
        text,
        48,
        in_record(),
        Awaits::Value,
        key,
        1,
    ));
    assert(values_under(text, 46, in_record(), Awaits::Colon, key, 1) == values_under(
        text,
        47,
        in_record(),
        Awaits::Value,
        key,
        1,
    ));
    assert(values_under(text, 40, in_record(), Awaits::KeyOrClose, key, 1) =~= (if key == hash_key() {
        seq![48int]
    } else {
        Seq::<int>::empty()
    }) + values_under(
        text,
        46,
        in_record(),
        Awaits::Colon,
        key,
        1,
    ));
    assert(value_here(text, 40, Awaits::KeyOrClose, key) == if key == hash_key() {
        Some(48int)
    } else {
        None
    });
    assert(values_under(text, 39, in_record(), Awaits::KeyOrClose, key, 1) == values_under(
        text,
        40,
        in_record(),
        Awaits::KeyOrClose,
        key,
        1,
    ));
    assert(values_under(text, 38, in_record(), Awaits::KeyOrClose, key, 1) == values_under(
        text,
        39,
        in_record(),
        Awaits::KeyOrClose,
        key,
        1,
    ));
    assert(values_under(text, 37, in_record(), Awaits::KeyOrClose, key, 1) == values_under(
        text,
        38,
        in_record(),
        Awaits::KeyOrClose,
        key,
        1,
    ));
    assert(values_under(text, 36, in_record(), Awaits::KeyOrClose, key, 1) == values_under(
        text,
        37,
        in_record(),
        Awaits::KeyOrClose,
        key,
        1,
    ));
    assert(values_under(text, 35, in_record(), Awaits::KeyOrClose, key, 1) == values_under(
        text,
        36,
        in_record(),
        Awaits::KeyOrClose,
        key,
        1,
    ));
    assert(values_under(text, 34, nothing_open(), Awaits::Value, key, 1) == values_under(
        text,
        35,
        in_record(),
        Awaits::KeyOrClose,
        key,
        1,
    ));
}

/// The shape of the text that is written for a pointer.
proof fn lemma_written_shape(hash: Seq<char>)
    ensures
        stands_at(rendered(hash), 0, written_opening()),
        string_end(rendered(hash), 48) == Some(49 + escaped(hash).len() as int + 1),
        decode_from(rendered(hash), 49) == Some((hash, 49 + escaped(hash).len() as int)),
        stands_at(rendered(hash), 49 + escaped(hash).len() as int + 1, written_closing()),
        rendered(hash).len() == 49 + escaped(hash).len() + 1 + 6,
{
    let text = rendered(hash);
    let body = escaped(hash);
    let end: int = 49 + body.len() as int + 1;
    lemma_escaped_version_one();
    assert(written_opening() =~= record_head() + version_one() + record_middle());
    assert(text =~= written_opening() + body + record_tail());
    assert(text.subrange(0, 49) =~= written_opening());
    assert(text.subrange(49, end) =~= body + seq!['"']);
    assert(text.subrange(end, text.len() as int) =~= written_closing());
    lemma_decode_escaped(text, 49, hash);
    assert(text[48] == text.subrange(0, 49)[48]);
}

/// The text that is written for a pointer names the one version, once.
proof fn lemma_written_names(text: Seq<char>, end: int)
    requires
        stands_at(text, 0, written_opening()),
        string_end(text, 48) == Some(end),
        48 < end,
        stands_at(text, end, written_closing()),
        end + 6 == text.len(),
    ensures
        version_tag(text) == Some(version_one()),
        named_once(text),
{
    lemma_written_tokens(text);
    assert(version_key() != pointer_key()) by {
        assert(version_key()[0] != pointer_key()[0]);
    }
    lemma_written_members(text, end, version_key());
    assert(members_under(text, 0, version_key()) =~= seq![15int]);
    assert(text.subrange(15, 16) =~= seq!['"']) by {
        lemma_written_chars(text);
    }
}

/// The text that is written for a pointer holds its hash.
proof fn lemma_written_holds(text: Seq<char>, end: int, hash: Seq<char>)
    requires
        stands_at(text, 0, written_opening()),
        string_end(text, 48) == Some(end),
        48 < end,
        stands_at(text, end, written_closing()),
        end + 6 == text.len(),
        decode_from(text, 49) == Some((hash, end - 1)),
    ensures
        hash_value(text) == Some(hash),
{
    assert(version_key() != pointer_key()) by {
        assert(version_key()[0] != pointer_key()[0]);
    }
    lemma_written_members(text, end, pointer_key());
    assert(members_under(text, 0, pointer_key()) =~= seq![34int]);
    lemma_written_members_inside(text, end, hash_key());
    assert(members_under(text, 34, hash_key()) =~= seq![48int]);
    assert(text.subrange(34, 35) =~= seq!['{'] && text.subrange(48, 49) =~= seq!['"']) by {
        lemma_written_chars(text);
    }
}

/// The text written for a pointer is a record that names the one version,
/// once, holds the pointer's hash, and is well-formed JSON: it is read back
/// as the pointer.
pub proof fn lemma_rendered_is_record(hash: Seq<char>)
    ensures
        version_tag(rendered(hash)) == Some(version_one()),
        named_once(rendered(hash)),
        hash_value(rendered(hash)) == Some(hash),
        well_formed(rendered(hash)),
        parsed(rendered(hash)) == Ok::<Seq<char>, GfsError>(hash),
{
    let text = rendered(hash);
    let end: int = 49 + escaped(hash).len() as int + 1;
    lemma_written_shape(hash);
    lemma_written_names(text, end);
    lemma_written_holds(text, end, hash);
    lemma_written_well_formed(text, end);
}

/// The characters of a text that opens as a record on one line does.
proof fn lemma_line_chars(text: Seq<char>)
    requires
        stands_at(text, 0, line_opening()),
    ensures
        text.len() >= 35,
        text[0] == '{',
        text[1] == '"',
        text[2] == 'v',
        text[3] == 'e',
        text[4] == 'r',
        text[5] == 's',
        text[6] == 'i',
        text[7] == 'o',
        text[8] == 'n',
        text[9] == '"',
        text[10] == ':',
        text[11] == '"',
        text[12] == 'V',
        text[13] == '1',
        text[14] == '"',
        text[15] == ',',
        text[16] == '"',
        text[17] == 'p',
        text[18] == 'o',
        text[19] == 'i',
        text[20] == 'n',
        text[21] == 't',
        text[22] == 'e',
        text[23] == 'r',
        text[24] == '"',
        text[25] == ':',
        text[26] == '{',
        text[27] == '"',
        text[28] == 'h',
        text[29] == 'a',
        text[30] == 's',
        text[31] == 'h',
        text[32] == '"',
        text[33] == ':',
        text[34] == '"',
{
    let opening = line_opening();
    assert(opening.len() == 35);
    assert forall|k: int| 0 <= k < 35 implies #[trigger] text[k] == opening[k] by {
        assert(text[k] == text.subrange(0, 35)[k]);
    }
}

/// The characters of a text that ends as a record on one line does.
proof fn lemma_line_end(text: Seq<char>, end: int)
    requires
        stands_at(text, end, line_end()),
    ensures
        text[end] == '}',
        text[end + 1] == '}',
{
    let closing = line_end();
    assert(closing.len() == 2);
    assert forall|k: int| 0 <= k < 2 implies text[end + k] == #[trigger] closing[k] by {
        assert(text[end + k] == text.subrange(end, end + 2)[k]);
    }
    assert(text[end] == closing[0]);
    assert(text[end + 1] == closing[1]);
}

/// The keys and the tag of a text that opens as a record on one line does.
proof fn lemma_line_tokens(text: Seq<char>)
    requires
        stands_at(text, 0, line_opening()),
    ensures
        string_end(text, 1) == Some(10int),
        decode_from(text, 2) == Some((version_key(), 9int)),
        value_behind(text, 10) == Some(11int),
        string_end(text, 11) == Some(15int),
        decode_from(text, 12) == Some((version_one(), 14int)),
        string_end(text, 16) == Some(25int),
        decode_from(text, 17) == Some((pointer_key(), 24int)),
        value_behind(text, 25) == Some(26int),
        string_end(text, 27) == Some(33int),
        decode_from(text, 28) == Some((hash_key(), 32int)),
        value_behind(text, 33) == Some(34int),
{
    lemma_line_chars(text);
    reveal_with_fuel(skip_space, 3);
    lemma_decode_plain(text, 2, 7);
    assert(text.subrange(2, 9) =~= version_key());
    lemma_decode_plain(text, 12, 2);
    assert(text.subrange(12, 14) =~= version_one());
    lemma_decode_plain(text, 17, 7);
    assert(text.subrange(17, 24) =~= pointer_key());
    lemma_decode_plain(text, 28, 4);
    assert(text.subrange(28, 32) =~= hash_key());
}

/// The steps of the reading through a text that opens as a record on one line does, up to
/// the hash.
proof fn lemma_line_steps_before(text: Seq<char>)
    requires
        stands_at(text, 0, line_opening()),
    ensures
        step(text, 0, nothing_open(), Awaits::Value) == Some((1int, in_record(), Awaits::KeyOrClose)),
        step(text, 1, in_record(), Awaits::KeyOrClose) == Some((10int, in_record(), Awaits::Colon)),
        step(text, 10, in_record(), Awaits::Colon) == Some((11int, in_record(), Awaits::Value)),
        step(text, 11, in_record(), Awaits::Value) == Some((15int, in_record(), Awaits::CommaOrClose)),
        step(text, 15, in_record(), Awaits::CommaOrClose) == Some((16int, in_record(), Awaits::Key)),
        step(text, 16, in_record(), Awaits::Key) == Some((25int, in_record(), Awaits::Colon)),
        step(text, 25, in_record(), Awaits::Colon) == Some((26int, in_record(), Awaits::Value)),
        step(text, 26, in_record(), Awaits::Value) == Some((27int, in_pointer(), Awaits::KeyOrClose)),
        step(text, 27, in_pointer(), Awaits::KeyOrClose) == Some((33int, in_pointer(), Awaits::Colon)),
        step(text, 33, in_pointer(), Awaits::Colon) == Some((34int, in_pointer(), Awaits::Value)),
{
    let empty = nothing_open();
    let outer = in_record();
    let inner = in_pointer();
    assert(empty.push(true) =~= outer);
    assert(outer.push(true) =~= inner);
    assert(inner.drop_last() =~= outer);
    assert(outer.drop_last() =~= empty);
    assert(outer.last() && inner.last());
    assert(after_value(empty) == Awaits::End && after_value(outer) == Awaits::CommaOrClose
        && after_value(inner) == Awaits::CommaOrClose);
    lemma_line_chars(text);
    lemma_line_tokens(text);
    lemma_step_into_object(text, 0, nothing_open());
    lemma_step_key(text, 1, in_record(), Awaits::KeyOrClose, 10);
    lemma_step_colon(text, 10, in_record());
    lemma_step_string(text, 11, in_record(), 15);
    lemma_step_comma(text, 15, in_record());
    lemma_step_key(text, 16, in_record(), Awaits::Key, 25);
    lemma_step_colon(text, 25, in_record());
    lemma_step_into_object(text, 26, in_record());
    lemma_step_key(text, 27, in_pointer(), Awaits::KeyOrClose, 33);
    lemma_step_colon(text, 33, in_pointer());
}

/// The steps of the reading through a text that ends as a record on one line does, from the
/// hash on.
proof fn lemma_line_steps_after(text: Seq<char>, end: int)
    requires
        stands_at(text, 0, line_opening()),
        string_end(text, 34) == Some(end),
        34 < end,
        stands_at(text, end, line_end()),
        end + 2 == text.len(),
    ensures
        step(text, 34, in_pointer(), Awaits::Value) == Some((end, in_pointer(), Awaits::CommaOrClose)),
        step(text, end, in_pointer(), Awaits::CommaOrClose) == Some((end + 1, in_record(), Awaits::CommaOrClose)),
        step(text, end + 1, in_record(), Awaits::CommaOrClose) == Some((end + 2, nothing_open(), Awaits::End)),
{
    let empty = nothing_open();
    let outer = in_record();
    let inner = in_pointer();
    assert(empty.push(true) =~= outer);
    assert(outer.push(true) =~= inner);
    assert(inner.drop_last() =~= outer);
    assert(outer.drop_last() =~= empty);
    assert(outer.last() && inner.last());
    assert(after_value(empty) == Awaits::End && after_value(outer) == Awaits::CommaOrClose
        && after_value(inner) == Awaits::CommaOrClose);
    lemma_line_chars(text);
    lemma_line_tokens(text);
    lemma_line_end(text, end);
    lemma_step_string(text, 34, in_pointer(), end);
    lemma_step_out_of_object(text, end, in_pointer());
    lemma_step_out_of_object(text, end + 1, in_record());
}

/// The steps of the reading through the object that holds the hash, in a
/// text that opens and ends as a record on one line does.
proof fn lemma_line_steps_inside(text: Seq<char>, end: int)
    requires
        stands_at(text, 0, line_opening()),
        string_end(text, 34) == Some(end),
        34 < end,
        stands_at(text, end, line_end()),
        end + 2 == text.len(),
    ensures
        step(text, 26, nothing_open(), Awaits::Value) == Some((27int, in_record(), Awaits::KeyOrClose)),
        step(text, 27, in_record(), Awaits::KeyOrClose) == Some((33int, in_record(), Awaits::Colon)),
        step(text, 33, in_record(), Awaits::Colon) == Some((34int, in_record(), Awaits::Value)),
        step(text, 34, in_record(), Awaits::Value) == Some((end, in_record(), Awaits::CommaOrClose)),
        step(text, end, in_record(), Awaits::CommaOrClose) == Some((end + 1, nothing_open(), Awaits::End)),
        step(text, end + 1, nothing_open(), Awaits::End) is None,
{
    let empty = nothing_open();
    let outer = in_record();
    let inner = in_pointer();
    assert(empty.push(true) =~= outer);
    assert(outer.push(true) =~= inner);
    assert(inner.drop_last() =~= outer);
    assert(outer.drop_last() =~= empty);
    assert(outer.last() && inner.last());
    assert(after_value(empty) == Awaits::End && after_value(outer) == Awaits::CommaOrClose
        && after_value(inner) == Awaits::CommaOrClose);
    lemma_line_chars(text);
    lemma_line_tokens(text);
    lemma_line_end(text, end);
    lemma_step_into_object(text, 26, nothing_open());
    lemma_step_key(text, 27, in_record(), Awaits::KeyOrClose, 33);
    lemma_step_colon(text, 33, in_record());
    lemma_step_string(text, 34, in_record(), end);
    lemma_step_out_of_object(text, end, in_record());
    lemma_step_behind_end(text, end + 1, nothing_open());
}

/// A text that opens and ends as a record on one line does, with a string between, is
/// well formed.
proof fn lemma_line_well_formed(text: Seq<char>, end: int)
    requires
        stands_at(text, 0, line_opening()),
        string_end(text, 34) == Some(end),
        34 < end,
        stands_at(text, end, line_end()),
        end + 2 == text.len(),
    ensures
        well_formed(text),
{
    let empty = nothing_open();
    let outer = in_record();
    let inner = in_pointer();
    lemma_line_chars(text);
    lemma_line_end(text, end);
    lemma_line_tokens(text);
    lemma_line_steps_before(text);
    lemma_line_steps_after(text, end);
    assert(well_formed_from(text, end + 2, nothing_open(), Awaits::End));
    assert(well_formed_from(text, end + 1, in_record(), Awaits::CommaOrClose) == well_formed_from(
        text,
        end + 2,
        nothing_open(),
        Awaits::End,
    ));
    assert(well_formed_from(text, end, in_pointer(), Awaits::CommaOrClose) == well_formed_from(
        text,
        end + 1,
        in_record(),
        Awaits::CommaOrClose,
    ));
    assert(well_formed_from(text, 34, in_pointer(), Awaits::Value) == well_formed_from(
        text,
        end,
        in_pointer(),
        Awaits::CommaOrClose,
    ));
    assert(well_formed_from(text, 33, in_pointer(), Awaits::Colon) == well_formed_from(
        text,
        34,
        in_pointer(),
        Awaits::Value,
    ));
    assert(well_formed_from(text, 27, in_pointer(), Awaits::KeyOrClose) == well_formed_from(
        text,
        33,
        in_pointer(),
        Awaits::Colon,
    ));
    assert(well_formed_from(text, 26, in_record(), Awaits::Value) == well_formed_from(
        text,
        27,
        in_pointer(),
        Awaits::KeyOrClose,
    ));
    assert(well_formed_from(text, 25, in_record(), Awaits::Colon) == well_formed_from(
        text,
        26,
        in_record(),
        Awaits::Value,
    ));
    assert(well_formed_from(text, 16, in_record(), Awaits::Key) == well_formed_from(
        text,
        25,
        in_record(),
        Awaits::Colon,
    ));
    assert(well_formed_from(text, 15, in_record(), Awaits::CommaOrClose) == well_formed_from(
        text,
        16,
        in_record(),
        Awaits::Key,
    ));
    assert(well_formed_from(text, 11, in_record(), Awaits::Value) == well_formed_from(
        text,
        15,
        in_record(),
        Awaits::CommaOrClose,
    ));
    assert(well_formed_from(text, 10, in_record(), Awaits::Colon) == well_formed_from(
        text,
        11,
        in_record(),
        Awaits::Value,
    ));
    assert(well_formed_from(text, 1, in_record(), Awaits::KeyOrClose) == well_formed_from(
        text,
        10,
        in_record(),
        Awaits::Colon,
    ));
    assert(well_formed_from(text, 0, nothing_open(), Awaits::Value) == well_formed_from(
        text,
        1,
        in_record(),
        Awaits::KeyOrClose,
    ));
}

/// The values under a key among the members of a record that opens and
/// ends as a record on one line does.
proof fn lemma_line_members(text: Seq<char>, end: int, key: Seq<char>)
    requires
        stands_at(text, 0, line_opening()),
        string_end(text, 34) == Some(end),
        34 < end,
        stands_at(text, end, line_end()),
        end + 2 == text.len(),
    ensures
        members_under(text, 0, key) =~= (if key == version_key() {
            seq![11int]
        } else {
            Seq::<int>::empty()
        }) + (if key == pointer_key() {
            seq![26int]
        } else {
            Seq::<int>::empty()
        }),
{
    let empty = nothing_open();
    let outer = in_record();
    let inner = in_pointer();
    lemma_line_chars(text);
    lemma_line_end(text, end);
    lemma_line_tokens(text);
    lemma_line_steps_before(text);
    lemma_line_steps_after(text, end);
    assert(values_under(text, end + 2, nothing_open(), Awaits::End, key, 1) =~= Seq::<int>::empty());
    assert(values_under(text, end + 1, in_record(), Awaits::CommaOrClose, key, 1) == values_under(
        text,
        end + 2,
        nothing_open(),
        Awaits::End,
        key,
        1,
    ));
    assert(values_under(text, end, in_pointer(), Awaits::CommaOrClose, key, 1) == values_under(
        text,
        end + 1,
        in_record(),
        Awaits::CommaOrClose,
        key,
        1,
    ));
    assert(values_under(text, 34, in_pointer(), Awaits::Value, key, 1) == values_under(
        text,
        end,
        in_pointer(),
        Awaits::CommaOrClose,
        key,
        1,
    ));
    assert(values_under(text, 33, in_pointer(), Awaits::Colon, key, 1) == values_under(
        text,
        34,
        in_pointer(),
        Awaits::Value,
        key,
        1,
    ));
    assert(values_under(text, 27, in_pointer(), Awaits::KeyOrClose, key, 1) == values_under(
        text,
        33,
        in_pointer(),
        Awaits::Colon,
        key,
        1,
    ));
    assert(values_under(text, 26, in_record(), Awaits::Value, key, 1) == values_under(
        text,
        27,
        in_pointer(),
        Awaits::KeyOrClose,
        key,
        1,
    ));
    assert(values_under(text, 25, in_record(), Awaits::Colon, key, 1) == values_under(
        text,
        26,
        in_record(),
        Awaits::Value,
        key,
        1,
    ));
    assert(values_under(text, 16, in_record(), Awaits::Key, key, 1) =~= (if key == pointer_key() {
        seq![26int]
    } else {
        Seq::<int>::empty()
    }) + values_under(
        text,
        25,
        in_record(),
        Awaits::Colon,
        key,
        1,
    ));
    assert(value_here(text, 16, Awaits::Key, key) == if key == pointer_key() {
        Some(26int)
    } else {
        None
    });
    assert(values_under(text, 15, in_record(), Awaits::CommaOrClose, key, 1) == values_under(
        text,
        16,
        in_record(),
        Awaits::Key,
        key,
        1,
    ));
    assert(values_under(text, 11, in_record(), Awaits::Value, key, 1) == values_under(
        text,
        15,
        in_record(),
        Awaits::CommaOrClose,
        key,
        1,
    ));
    assert(values_under(text, 10, in_record(), Awaits::Colon, key, 1) == values_under(
        text,
        11,
        in_record(),
        Awaits::Value,
        key,
        1,
    ));
    assert(values_under(text, 1, in_record(), Awaits::KeyOrClose, key, 1) =~= (if key == version_key() {
        seq![11int]
    } else {
        Seq::<int>::empty()
    }) + values_under(
        text,
        10,
        in_record(),
        Awaits::Colon,
        key,
        1,
    ));
    assert(value_here(text, 1, Awaits::KeyOrClose, key) == if key == version_key() {
        Some(11int)
    } else {
        None
    });
    assert(values_under(text, 0, nothing_open(), Awaits::Value, key, 1) == values_under(
        text,
        1,
        in_record(),
        Awaits::KeyOrClose,
        key,
        1,
    ));
}

/// The values under a key among the members of the object that holds the
/// hash, in a record that opens and ends as a record on one line does.
proof fn lemma_line_members_inside(text: Seq<char>, end: int, key: Seq<char>)
    requires
        stands_at(text, 0, line_opening()),
        string_end(text, 34) == Some(end),
        34 < end,
        stands_at(text, end, line_end()),
        end + 2 == text.len(),
    ensures
        members_under(text, 26, key) =~= (if key == hash_key() {
            seq![34int]
        } else {
            Seq::<int>::empty()
        }),
{
    let empty = nothing_open();
    let outer = in_record();
    let inner = in_pointer();
    lemma_line_chars(text);
    lemma_line_end(text, end);
    lemma_line_tokens(text);
    lemma_line_steps_inside(text, end);
    assert(values_under(text, end + 1, nothing_open(), Awaits::End, key, 1) =~= Seq::<int>::empty());
    assert(values_under(text, end, in_record(), Awaits::CommaOrClose, key, 1) == values_under(
        text,
        end + 1,
        nothing_open(),
        Awaits::End,
        key,
        1,
    ));
    assert(values_under(text, 34, in_record(), Awaits::Value, key, 1) == values_under(
        text,
        end,
        in_record(),
        Awaits::CommaOrClose,
        key,
        1,
    ));
    assert(values_under(text, 33, in_record(), Awaits::Colon, key, 1) == values_under(
        text,
        34,
        in_record(),
        Awaits::Value,
        key,
        1,
    ));
    assert(values_under(text, 27, in_record(), Awaits::KeyOrClose, key, 1) =~= (if key == hash_key() {
        seq![34int]
    } else {
        Seq::<int>::empty()
    }) + values_under(
        text,
        33,
        in_record(),
        Awaits::Colon,
        key,
        1,
    ));
    assert(value_here(text, 27, Awaits::KeyOrClose, key) == if key == hash_key() {
        Some(34int)
    } else {
        None
    });
    assert(values_under(text, 26, nothing_open(), Awaits::Value, key, 1) == values_under(
        text,
        27,
        in_record(),
        Awaits::KeyOrClose,
        key,
        1,
    ));
}

/// The shape of a record that is written on one line.
proof fn lemma_line_shape(hash: Seq<char>)
    ensures
        stands_at(rendered_on_one_line(hash), 0, line_opening()),
        string_end(rendered_on_one_line(hash), 34) == Some(35 + escaped(hash).len() as int + 1),
        decode_from(rendered_on_one_line(hash), 35) == Some((hash, 35 + escaped(hash).len() as int)),
        stands_at(rendered_on_one_line(hash), 35 + escaped(hash).len() as int + 1, line_end()),
        rendered_on_one_line(hash).len() == 35 + escaped(hash).len() + 1 + 2,
{
    let text = rendered_on_one_line(hash);
    let body = escaped(hash);
    let end: int = 35 + body.len() as int + 1;
    assert(text =~= line_opening() + body + line_closing());
    assert(text.subrange(0, 35) =~= line_opening());
    assert(text.subrange(35, end) =~= body + seq!['"']);
    assert(text.subrange(end, text.len() as int) =~= line_end());
    lemma_decode_escaped(text, 35, hash);
    assert(text[34] == text.subrange(0, 35)[34]);
}

/// A record that is written on one line names the one version, once.
proof fn lemma_line_names(text: Seq<char>, end: int)
    requires
        stands_at(text, 0, line_opening()),
        string_end(text, 34) == Some(end),
        34 < end,
        stands_at(text, end, line_end()),
        end + 2 == text.len(),
    ensures
        version_tag(text) == Some(version_one()),
        named_once(text),
{
    lemma_line_tokens(text);
    assert(version_key() != pointer_key()) by {
        assert(version_key()[0] != pointer_key()[0]);
    }
    lemma_line_members(text, end, version_key());
    assert(members_under(text, 0, version_key()) =~= seq![11int]);
    assert(text.subrange(11, 12) =~= seq!['"']) by {
        lemma_line_chars(text);
    }
}

/// A record that is written on one line holds the hash it was written
/// with.
proof fn lemma_line_holds(text: Seq<char>, end: int, hash: Seq<char>)
    requires
        stands_at(text, 0, line_opening()),
        string_end(text, 34) == Some(end),
        34 < end,
        stands_at(text, end, line_end()),
        end + 2 == text.len(),
        decode_from(text, 35) == Some((hash, end - 1)),
    ensures
        hash_value(text) == Some(hash),
{
    assert(version_key() != pointer_key()) by {
        assert(version_key()[0] != pointer_key()[0]);
    }
    lemma_line_members(text, end, pointer_key());
    assert(members_under(text, 0, pointer_key()) =~= seq![26int]);
    lemma_line_members_inside(text, end, hash_key());
    assert(members_under(text, 26, hash_key()) =~= seq![34int]);
    assert(text.subrange(26, 27) =~= seq!['{'] && text.subrange(34, 35) =~= seq!['"']) by {
        lemma_line_chars(text);
    }
}

/// A record that is written on one line is a record that names the one
/// version, once, holds the hash it was written with, and is well-formed
/// JSON: it is read as the pointer with that hash.
pub proof fn lemma_one_line_is_record(hash: Seq<char>)
    ensures
        version_tag(rendered_on_one_line(hash)) == Some(version_one()),
        named_once(rendered_on_one_line(hash)),
        hash_value(rendered_on_one_line(hash)) == Some(hash),
        well_formed(rendered_on_one_line(hash)),
        parsed(rendered_on_one_line(hash)) == Ok::<Seq<char>, GfsError>(hash),
{
    let text = rendered_on_one_line(hash);
    let end: int = 35 + escaped(hash).len() as int + 1;
    lemma_line_shape(hash);
    lemma_line_names(text, end);
    lemma_line_holds(text, end, hash);
    lemma_line_well_formed(text, end);
}

} // verus!
