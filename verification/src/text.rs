//! Scanning text byte by byte: words, lines, and whether one text occurs
//! in another.
//!
//! The contracts speak of the bytes of the UTF-8 encoding. A space, a line
//! feed and a carriage return are single bytes that occur nowhere inside
//! the encoding of another character, so cutting next to one of them cuts
//! between characters.

use vstd::prelude::*;
use vstd::string::*;
use vstd::utf8::*;

verus! {

/// Place of the first `byte` in `bytes`, or the length if there is none.
pub open spec fn first_index(bytes: Seq<u8>, byte: u8) -> int
    decreases bytes.len(),
{
    if bytes.len() == 0 || bytes[0] == byte {
        0
    } else {
        1 + first_index(bytes.skip(1), byte)
    }
}

/// `first_index` is the place before which `byte` does not occur and at
/// which it does, if the place is inside.
pub proof fn lemma_first_index(bytes: Seq<u8>, byte: u8, at: int)
    requires
        0 <= at <= bytes.len(),
        forall|j: int| 0 <= j < at ==> bytes[j] != byte,
        at < bytes.len() ==> bytes[at] == byte,
    ensures
        first_index(bytes, byte) == at,
    decreases at,
{
    if at > 0 {
        let rest = bytes.skip(1);
        lemma_first_index(rest, byte, at - 1);
    }
}

/// `first_index` lies inside or at the end, with no `byte` before it.
pub proof fn lemma_first_index_bounds(bytes: Seq<u8>, byte: u8)
    ensures
        0 <= first_index(bytes, byte) <= bytes.len(),
        first_index(bytes, byte) < bytes.len() ==> bytes[first_index(bytes, byte)] == byte,
        forall|j: int| 0 <= j < first_index(bytes, byte) ==> bytes[j] != byte,
    decreases bytes.len(),
{
    if bytes.len() > 0 && bytes[0] != byte {
        let rest = bytes.skip(1);
        lemma_first_index_bounds(rest, byte);
        assert forall|j: int| 0 <= j < first_index(bytes, byte) implies bytes[j] != byte by {
            if j > 0 {
                assert(rest[j - 1] == bytes[j]);
            }
        }
    }
}

/// Place of the first `byte` in `bytes`, or the length if there is none.
pub fn find_byte(bytes: &[u8], byte: u8) -> (at: usize)
    ensures
        at == first_index(bytes@, byte),
{
    let mut i: usize = 0;
    while i < bytes.len() && bytes[i] != byte
        invariant
            i <= bytes.len(),
            forall|j: int| 0 <= j < i ==> bytes@[j] != byte,
        decreases bytes.len() - i,
    {
        i = i + 1;
    }
    proof {
        lemma_first_index(bytes@, byte, i as int);
    }
    i
}

/// In the encoding of a text, the place of a byte below 128, the place
/// after it, and the end are all between characters.
pub proof fn lemma_ascii_byte_is_boundary(bytes: Seq<u8>, at: int)
    requires
        valid_utf8(bytes),
        0 <= at <= bytes.len(),
        at < bytes.len() ==> bytes[at] < 0x80,
    ensures
        is_char_boundary(bytes, at),
        at < bytes.len() ==> is_char_boundary(bytes, at + 1),
{
    is_char_boundary_start_end_of_seq(bytes);
    if at < bytes.len() {
        is_char_boundary_iff_not_is_continuation_byte(bytes, at);
        valid_utf8_split(bytes, at);
        let tail = bytes.subrange(at, bytes.len() as int);
        assert(is_char_boundary(tail, 1)) by {
            reveal_with_fuel(is_char_boundary, 2);
            reveal_with_fuel(valid_utf8, 2);
        }
        if at + 1 < bytes.len() {
            is_char_boundary_iff_not_is_continuation_byte(tail, 1);
            is_char_boundary_iff_not_is_continuation_byte(bytes, at + 1);
        }
    }
}

/// The bytes of the first word of a text: what stands before the first
/// space, or all of it.
pub open spec fn first_word_of(bytes: Seq<u8>) -> Seq<u8> {
    bytes.take(first_index(bytes, 0x20))
}

/// The first word of `s`: the part before the first space, or all of `s`
/// if it holds none.
pub fn first_word(s: &str) -> (word: &str)
    ensures
        word.spec_bytes() == first_word_of(s.spec_bytes()),
{
    let bytes = s.as_bytes();
    let end = find_byte(bytes, 0x20);
    proof {
        lemma_first_index_bounds(bytes@, 0x20);
        encode_utf8_valid_utf8(s@);
        lemma_ascii_byte_is_boundary(bytes@, end as int);
    }
    let (word, _) = s.split_at(end);
    word
}

/// The longer of two texts by encoded length; the second if they are
/// equally long.
pub fn longest<'a>(x: &'a str, y: &'a str) -> (r: &'a str)
    ensures
        r == if x.spec_bytes().len() > y.spec_bytes().len() {
            x
        } else {
            y
        },
{
    if x.as_bytes().len() > y.as_bytes().len() {
        x
    } else {
        y
    }
}

/// `needle` stands in `hay` at place `at`.
pub open spec fn occurs_at(needle: Seq<u8>, hay: Seq<u8>, at: int) -> bool {
    0 <= at && at + needle.len() <= hay.len() && hay.subrange(at, at + needle.len()) == needle
}

/// `needle` stands somewhere in `hay`. The empty text stands everywhere.
pub open spec fn occurs_in(needle: Seq<u8>, hay: Seq<u8>) -> bool {
    exists|at: int| occurs_at(needle, hay, at)
}

/// Whether `needle` stands in `hay` at place `at`.
pub fn matches_at(needle: &[u8], hay: &[u8], at: usize) -> (b: bool)
    requires
        at + needle@.len() <= hay@.len(),
    ensures
        b == occurs_at(needle@, hay@, at as int),
{
    let mut k: usize = 0;
    assert(hay@.len() == hay.len());
    while k < needle.len() && hay[at + k] == needle[k]
        invariant
            k <= needle@.len(),
            at + needle@.len() <= hay@.len(),
            hay@.len() <= usize::MAX,
            forall|j: int| 0 <= j < k ==> hay@[at + j] == needle@[j],
        decreases needle.len() - k,
    {
        k = k + 1;
    }
    proof {
        let part = hay@.subrange(at as int, at + needle@.len());
        if k == needle@.len() {
            assert(part =~= needle@);
        }
    }
    k == needle.len()
}

/// Whether `needle` stands somewhere in `hay`.
pub fn contains_bytes(needle: &[u8], hay: &[u8]) -> (b: bool)
    ensures
        b == occurs_in(needle@, hay@),
{
    if needle.len() > hay.len() {
        return false;
    }
    let last = hay.len() - needle.len();
    let mut at: usize = 0;
    loop
        invariant
            last == hay@.len() - needle@.len(),
            at <= last,
            forall|j: int| 0 <= j < at ==> !occurs_at(needle@, hay@, j),
        decreases last - at,
    {
        if matches_at(needle, hay, at) {
            return true;
        }
        if at == last {
            return false;
        }
        at = at + 1;
    }
}

/// Whether the text `needle` stands somewhere in the text `hay`.
pub fn contains(hay: &str, needle: &str) -> (b: bool)
    ensures
        b == occurs_in(needle.spec_bytes(), hay.spec_bytes()),
{
    contains_bytes(needle.as_bytes(), hay.as_bytes())
}

/// Whether two byte strings are the same.
pub fn same_bytes(a: &[u8], b: &[u8]) -> (same: bool)
    ensures
        same == (a@ == b@),
{
    if a.len() != b.len() {
        return false;
    }
    let mut i: usize = 0;
    while i < a.len() && a[i] == b[i]
        invariant
            i <= a@.len(),
            a@.len() == b@.len(),
            forall|j: int| 0 <= j < i ==> a@[j] == b@[j],
        decreases a.len() - i,
    {
        i = i + 1;
    }
    proof {
        if i == a@.len() {
            assert(a@ =~= b@);
        }
    }
    i == a.len()
}

/// Whether two texts are the same, character by character.
pub fn same_text(a: &str, b: &str) -> (same: bool)
    ensures
        same == (a@ == b@),
{
    proof {
        encode_utf8_decode_utf8(a@);
        encode_utf8_decode_utf8(b@);
    }
    same_bytes(a.as_bytes(), b.as_bytes())
}

/// A line without the carriage return that may end it.
pub open spec fn without_cr(line: Seq<u8>) -> Seq<u8> {
    if line.len() > 0 && line.last() == 0x0d {
        line.drop_last()
    } else {
        line
    }
}

/// The first line of a text that is not empty: what stands before the
/// first line feed, less a carriage return right before it; all of the
/// text if it holds no line feed.
pub open spec fn first_line(bytes: Seq<u8>) -> Seq<u8> {
    let end = first_index(bytes, 0x0a);
    if end < bytes.len() {
        without_cr(bytes.take(end))
    } else {
        bytes
    }
}

/// What follows the first line and its line feed.
pub open spec fn after_first_line(bytes: Seq<u8>) -> Seq<u8> {
    let end = first_index(bytes, 0x0a);
    if end < bytes.len() {
        bytes.skip(end + 1)
    } else {
        Seq::empty()
    }
}

/// The lines of a text. A line ends at a line feed, or at a carriage
/// return followed by a line feed; neither belongs to the line. What
/// stands after the last line feed is a line unless it is empty.
pub open spec fn lines_of(bytes: Seq<u8>) -> Seq<Seq<u8>>
    decreases bytes.len(),
    via lines_of_terminates
{
    if bytes.len() == 0 {
        Seq::empty()
    } else {
        seq![first_line(bytes)] + lines_of(after_first_line(bytes))
    }
}

#[via_fn]
proof fn lines_of_terminates(bytes: Seq<u8>) {
    lemma_first_index_bounds(bytes, 0x0a);
}

/// Cuts the first line off a text that is not empty, and returns it with
/// the rest.
pub fn split_first_line<'a>(text: &'a str) -> (parts: (&'a str, &'a str))
    requires
        text.spec_bytes().len() > 0,
    ensures
        parts.0.spec_bytes() == first_line(text.spec_bytes()),
        parts.1.spec_bytes() == after_first_line(text.spec_bytes()),
        parts.1.spec_bytes().len() < text.spec_bytes().len(),
{
    let bytes = text.as_bytes();
    let end = find_byte(bytes, 0x0a);
    proof {
        lemma_first_index_bounds(bytes@, 0x0a);
        encode_utf8_valid_utf8(text@);
        lemma_ascii_byte_is_boundary(bytes@, end as int);
    }
    if end >= bytes.len() {
        let (line, rest) = text.split_at(end);
        return (line, rest);
    }
    let (head, tail) = text.split_at(end);
    proof {
        encode_utf8_valid_utf8(tail@);
        lemma_ascii_byte_is_boundary(tail.spec_bytes(), 0);
    }
    let (_, rest) = tail.split_at(1);
    let head_bytes = head.as_bytes();
    if end > 0 && head_bytes[end - 1] == 0x0d {
        proof {
            encode_utf8_valid_utf8(head@);
            lemma_ascii_byte_is_boundary(head_bytes@, end - 1);
        }
        let (line, _) = head.split_at(end - 1);
        (line, rest)
    } else {
        (head, rest)
    }
}

/// The last character of a text, if it has one.
pub open spec fn last_char(chars: Seq<char>) -> Option<char> {
    if chars.len() == 0 {
        None
    } else {
        Some(chars.last())
    }
}

/// The last character of the first line of `text`; `None` if the text is
/// empty or its first line is.
pub fn last_char_of_first_line(text: &str) -> (c: Option<char>)
    ensures
        c == if text.spec_bytes().len() == 0 {
            None
        } else {
            last_char(decode_utf8(first_line(text.spec_bytes())))
        },
{
    if text.as_bytes().len() == 0 {
        return None;
    }
    let (line, _) = split_first_line(text);
    proof {
        encode_utf8_decode_utf8(line@);
    }
    let n = line.unicode_len();
    if n == 0 {
        None
    } else {
        Some(line.get_char(n - 1))
    }
}

/// Whether a character is white space: the characters with the Unicode
/// property `White_Space`. They are the tab, the line feed, the vertical
/// tab, the form feed, the carriage return, the space, the next line
/// control, the no-break space, the ogham space mark, the spaces from
/// the en quad to the hair space, the line and the paragraph separator,
/// the narrow no-break space, the medium mathematical space and the
/// ideographic space.
pub open spec fn white_space(c: char) -> bool {
    let n = c as u32;
    ||| 0x09 <= n <= 0x0d
    ||| n == 0x20
    ||| n == 0x85
    ||| n == 0xa0
    ||| n == 0x1680
    ||| 0x2000 <= n <= 0x200a
    ||| n == 0x2028
    ||| n == 0x2029
    ||| n == 0x202f
    ||| n == 0x205f
    ||| n == 0x3000
}

/// Whether a character is white space.
pub fn is_white_space(c: char) -> (b: bool)
    ensures
        b == white_space(c),
{
    let n = c as u32;
    (0x09 <= n && n <= 0x0d) || n == 0x20 || n == 0x85 || n == 0xa0 || n == 0x1680 || (0x2000 <= n && n <= 0x200a)
        || n == 0x2028 || n == 0x2029 || n == 0x202f || n == 0x205f || n == 0x3000
}

/// A text without the white space that it starts with.
pub open spec fn trim_start_of(text: Seq<char>) -> Seq<char>
    decreases text.len(),
{
    if text.len() > 0 && white_space(text[0]) {
        trim_start_of(text.skip(1))
    } else {
        text
    }
}

/// A text without the white space that it ends with.
pub open spec fn trim_end_of(text: Seq<char>) -> Seq<char>
    decreases text.len(),
{
    if text.len() > 0 && white_space(text.last()) {
        trim_end_of(text.drop_last())
    } else {
        text
    }
}

/// A text without the white space around it.
pub open spec fn trimmed(text: Seq<char>) -> Seq<char> {
    trim_end_of(trim_start_of(text))
}

/// The text without the white space around it.
pub fn trim(text: &str) -> (inner: &str)
    ensures
        inner@ == trimmed(text@),
{
    let chars = chars_of(text);
    let mut start: usize = 0;
    proof {
        assert(text@.skip(0) =~= text@);
    }
    while start < chars.len() && is_white_space(chars[start])
        invariant
            chars@ == text@,
            start <= chars@.len(),
            trim_start_of(text@) == trim_start_of(text@.skip(start as int)),
        decreases chars.len() - start,
    {
        proof {
            assert(text@.skip(start as int).skip(1) =~= text@.skip(start + 1));
        }
        start = start + 1;
    }
    let ghost rest = text@.skip(start as int);
    let mut end: usize = chars.len();
    while end > start && is_white_space(chars[end - 1])
        invariant
            chars@ == text@,
            start <= end <= chars@.len(),
            trim_end_of(rest) == trim_end_of(text@.subrange(start as int, end as int)),
        decreases end,
    {
        proof {
            assert(text@.subrange(start as int, end as int).drop_last() =~= text@.subrange(start as int, end - 1));
        }
        end = end - 1;
    }
    text.substring_char(start, end)
}

/// The characters of a text.
pub fn chars_of(text: &str) -> (chars: Vec<char>)
    ensures
        chars@ == text@,
{
    let mut chars: Vec<char> = Vec::new();
    for c in it: text.chars()
        invariant
            chars@ == it.seq().take(it.index() as int),
            it.seq() == text@,
    {
        chars.push(c);
    }
    chars
}

} // verus!
