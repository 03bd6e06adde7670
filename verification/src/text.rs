//! What is measured of one line of text: its words, its length in characters
//! and whether a terminator ends it.

use unicode_segmentation::UnicodeSegmentation;
use vstd::prelude::*;
use vstd::utf8::{decode_utf8, encode_scalar, encode_utf8, is_scalar, valid_utf8};

verus! {

broadcast use vstd::string::group_string_axioms;

/// Line feed.
pub const LINE_FEED: u8 = 0x0A;

/// Form feed.
pub const FORM_FEED: u8 = 0x0C;

/// Carriage return.
pub const CARRIAGE_RETURN: u8 = 0x0D;

/// `c` is white space: one of the 25 scalar values that Unicode gives the
/// property `White_Space`.
pub open spec fn white_space(c: char) -> bool {
    let u = c as u32;
    ||| 0x09 <= u <= 0x0D
    ||| u == 0x20
    ||| u == 0x85
    ||| u == 0xA0
    ||| u == 0x1680
    ||| 0x2000 <= u <= 0x200A
    ||| u == 0x2028
    ||| u == 0x2029
    ||| u == 0x202F
    ||| u == 0x205F
    ||| u == 0x3000
}

/// A word starts at `at`: a character that is no white space, at the very
/// beginning or behind white space.
pub open spec fn starts_word(text: Seq<char>, at: int) -> bool {
    &&& 0 <= at < text.len()
    &&& !white_space(text[at])
    &&& (at == 0 || white_space(text[at - 1]))
}

/// The number of words that start among the first `upto` characters.
pub open spec fn word_starts(text: Seq<char>, upto: int) -> nat
    decreases upto,
{
    if upto <= 0 {
        0
    } else {
        word_starts(text, upto - 1) + if starts_word(text, upto - 1) {
            1nat
        } else {
            0nat
        }
    }
}

/// The number of words in `text`: of its longest runs of characters that are
/// no white space.
pub open spec fn word_count(text: Seq<char>) -> nat {
    word_starts(text, text.len() as int)
}

/// The byte is a line terminator: line feed, carriage return or form feed.
pub open spec fn terminator(byte: u8) -> bool {
    byte == LINE_FEED || byte == CARRIAGE_RETURN || byte == FORM_FEED
}

/// The line ends in a terminator.
pub open spec fn terminated(line: Seq<u8>) -> bool {
    line.len() > 0 && terminator(line.last())
}

/// The character is a line terminator: line feed, carriage return or form
/// feed.
pub open spec fn ends_line(c: char) -> bool {
    c == '\n' || c == '\r' || c == '\u{0C}'
}

/// The number of extended grapheme clusters that `text` segments into.
pub uninterp spec fn grapheme_count(text: Seq<char>) -> nat;

/// The length of `text` in the unit asked for: grapheme clusters, or scalar
/// values.
pub open spec fn unit_count(text: Seq<char>, graphemes: bool) -> nat {
    if graphemes {
        grapheme_count(text)
    } else {
        text.len()
    }
}

/// The length at which a line is displayed: its length in characters, less
/// the one terminator that ends it.
pub open spec fn display_len(units: nat, terminated: bool) -> nat {
    if terminated && units > 0 {
        (units - 1) as nat
    } else {
        units
    }
}

/// Every character takes at least one byte.
pub proof fn lemma_chars_within_bytes(text: Seq<char>)
    ensures
        text.len() <= encode_utf8(text).len(),
    decreases text.len(),
{
    if text.len() > 0 {
        lemma_chars_within_bytes(text.drop_first());
        assert(encode_scalar(text[0] as u32).len() >= 1);
    }
}

/// The last byte of a character's encoding is the character itself where it
/// is below 128, and a byte from 128 on where it is not.
proof fn lemma_last_byte_of_scalar(v: u32)
    requires
        is_scalar(v),
    ensures
        encode_scalar(v).len() >= 1,
        v <= 0x7F ==> encode_scalar(v).last() == v,
        v > 0x7F ==> encode_scalar(v).last() >= 0x80,
{
    assert(v <= 0x7F ==> (v & 0x7F) as u8 == v) by (bit_vector);
    assert((0x80u8 | (v & 0x3F) as u8) >= 0x80) by (bit_vector);
}

/// The encoding of a text ends as the encoding of its last character ends.
proof fn lemma_last_byte(text: Seq<char>)
    requires
        text.len() > 0,
    ensures
        encode_utf8(text).len() > 0,
        encode_utf8(text).last() == encode_scalar(text.last() as u32).last(),
    decreases text.len(),
{
    vstd::utf8::char_is_scalar(text[0]);
    lemma_last_byte_of_scalar(text[0] as u32);
    let rest = text.drop_first();
    if rest.len() == 0 {
        assert(encode_utf8(rest) =~= Seq::<u8>::empty());
        assert(encode_utf8(text) =~= encode_scalar(text[0] as u32));
    } else {
        lemma_last_byte(rest);
        assert(rest.last() == text.last());
    }
}

/// A line of text ends in a terminator byte where its last character is a
/// line terminator, and nowhere else.
pub proof fn law_terminated_text(text: Seq<char>)
    ensures
        terminated(encode_utf8(text)) <==> (text.len() > 0 && ends_line(text.last())),
{
    if text.len() > 0 {
        let c = text.last();
        lemma_last_byte(text);
        vstd::utf8::char_is_scalar(c);
        lemma_last_byte_of_scalar(c as u32);
        vstd::utf8::char_u32_cast(c, c as u32);
        vstd::utf8::char_u32_cast('\n', 0x0Au32);
        vstd::utf8::char_u32_cast('\r', 0x0Du32);
        vstd::utf8::char_u32_cast('\u{0C}', 0x0Cu32);
    } else {
        assert(encode_utf8(text) =~= Seq::<u8>::empty());
    }
}

/// No more words start among some characters than there are characters.
pub proof fn lemma_word_starts_bound(text: Seq<char>, upto: int)
    requires
        0 <= upto,
    ensures
        word_starts(text, upto) <= upto,
    decreases upto,
{
    if upto > 0 {
        lemma_word_starts_bound(text, upto - 1);
    }
}

/// Whether `c` is white space.
pub fn is_white_space(c: char) -> (b: bool)
    ensures
        b == white_space(c),
{
    let u: u32 = c as u32;
    (0x09 <= u && u <= 0x0D) || u == 0x20 || u == 0x85 || u == 0xA0 || u == 0x1680 || (0x2000 <= u
        && u <= 0x200A) || u == 0x2028 || u == 0x2029 || u == 0x202F || u == 0x205F || u == 0x3000
}

/// Counts the words of `line`.
pub fn count_words(line: &str) -> (n: usize)
    ensures
        n == word_count(line@),
{
    let size: usize = line.as_bytes().len();
    proof {
        lemma_chars_within_bytes(line@);
    }
    let mut n: usize = 0;
    let mut in_word = false;
    for c in it: line.chars()
        invariant
            it.seq() == line@,
            line@.len() <= size,
            n == word_starts(line@, it.index() as int),
            n <= it.index(),
            in_word == (it.index() > 0 && !white_space(line@[it.index() - 1])),
    {
        let space = is_white_space(c);
        if !space && !in_word {
            n = n + 1;
        }
        in_word = !space;
    }
    n
}

/// Whether `line` ends in a line terminator.
pub fn ends_in_terminator(line: &[u8]) -> (b: bool)
    ensures
        b == terminated(line@),
{
    let len: usize = line.len();
    if len == 0 {
        false
    } else {
        let last: u8 = line[len - 1];
        last == LINE_FEED || last == CARRIAGE_RETURN || last == FORM_FEED
    }
}

/// The number of extended grapheme clusters of `line`, as
/// `UnicodeSegmentation::graphemes` of the crate `unicode-segmentation` yields
/// them. The count is a function of the text alone, and since every cluster
/// holds at least one byte of the text, it is at most the text's length in
/// bytes.
#[verifier::external_body]
fn grapheme_clusters(line: &str) -> (n: usize)
    ensures
        n == grapheme_count(line@),
        n <= encode_utf8(line@).len(),
{
    line.graphemes(true).count()
}

/// The error of `core::str::from_utf8`; nothing is read out of it.
#[verifier::external_type_specification]
#[verifier::external_body]
pub struct ExUtf8Error(core::str::Utf8Error);

/// `core::str::from_utf8` gives the text whose UTF-8 encoding the bytes are,
/// and an error where they are no such encoding.
pub assume_specification[ core::str::from_utf8 ](v: &[u8]) -> (text: Result<
    &str,
    core::str::Utf8Error,
>)
    ensures
        text is Ok <==> valid_utf8(v@),
        text matches Ok(t) ==> encode_utf8(t@) == v@,
;

/// Decodes `bytes` as text: the text whose UTF-8 encoding the bytes are, or
/// `None` where they are no such encoding.
pub fn text_of(bytes: &[u8]) -> (text: Option<&str>)
    ensures
        text is Some <==> valid_utf8(bytes@),
        text matches Some(t) ==> t@ == decode_utf8(bytes@) && encode_utf8(t@) == bytes@,
{
    broadcast use vstd::utf8::encode_utf8_decode_utf8;

    match core::str::from_utf8(bytes) {
        Ok(text) => Some(text),
        Err(_) => None,
    }
}

/// Measures `line` in the unit asked for.
pub fn count_units(line: &str, graphemes: bool) -> (n: usize)
    ensures
        n == unit_count(line@, graphemes),
        n <= encode_utf8(line@).len(),
{
    if graphemes {
        grapheme_clusters(line)
    } else {
        proof {
            lemma_chars_within_bytes(line@);
        }
        line.unicode_len()
    }
}

/// The length at which a line of `units` characters is displayed.
pub fn shown_len(units: usize, terminated: bool) -> (n: usize)
    ensures
        n == display_len(units as nat, terminated),
{
    if terminated && units > 0 {
        units - 1
    } else {
        units
    }
}

} // verus!
