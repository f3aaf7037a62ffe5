//! Texts that change hands: given, taken and given back, measured,
//! extended, and cut at the first space.

use crate::text::{find_byte, first_index, first_word_of};
use vstd::prelude::*;
use vstd::string::*;
use vstd::utf8::encode_utf8;

verus! {

/// A text of its own for the caller.
pub fn give_ownership() -> (s: String)
    ensures
        s@ == "hello"@,
{
    "hello".to_string()
}

/// Takes a text and gives it back.
pub fn take_and_give_back(some_string: String) -> (s: String)
    ensures
        s == some_string,
{
    some_string
}

/// Takes a text and gives it back with its length in bytes.
pub fn calculate_length(s: String) -> (r: (String, usize))
    ensures
        r.0 == s,
        r.1 == encode_utf8(s@).len(),
{
    let length = s.as_str().as_bytes().len();
    (s, length)
}

/// The length in bytes of a text that stays with the caller.
pub fn calculate_length_2(s: &String) -> (length: usize)
    ensures
        length == encode_utf8(s@).len(),
{
    s.as_str().as_bytes().len()
}

/// Extends the caller's text.
pub fn change(some_string: &mut String)
    ensures
        final(some_string)@ == old(some_string)@ + ", world"@,
{
    some_string.append(", world");
}

/// A text that is handed out rather than pointed at.
pub fn no_dangle() -> (s: String)
    ensures
        s@ == "hello"@,
{
    "hello".to_string()
}

/// Where the first word of `s` ends: the place of the first space among
/// its bytes, or their number if there is none.
pub fn first_word(s: &String) -> (end: usize)
    ensures
        end == first_index(encode_utf8(s@), 0x20),
{
    find_byte(s.as_str().as_bytes(), 0x20)
}

/// The first word of `s` as a part of `s`.
pub fn first_word_2(s: &str) -> (word: &str)
    ensures
        word.spec_bytes() == first_word_of(s.spec_bytes()),
{
    crate::text::first_word(s)
}

} // verus!
