//! Cursor positions in a query.

use crate::text::{byte_offset, lemma_boundary, lemma_boundary_after_ascii, lemma_byte_offset};
use vstd::prelude::*;
use vstd::string::*;
use vstd::utf8::*;

verus! {

/// The byte offset of the character at `char_pos`, or the length of the text
/// where it has fewer characters.
pub open spec fn char_to_byte_of(s: Seq<char>, char_pos: int) -> int {
    if char_pos < s.len() {
        byte_offset(s, char_pos)
    } else {
        encode_utf8(s).len() as int
    }
}

/// Convert a char-indexed cursor position to a byte offset in `s`.
pub fn char_to_byte(s: &str, char_pos: usize) -> (r: usize)
    ensures
        r == char_to_byte_of(s@, char_pos as int),
        r <= s.spec_bytes().len(),
        is_char_boundary(s.spec_bytes(), r as int),
{
    let n = s.unicode_len();
    proof {
        lemma_byte_offset(s@, if char_pos < n {
            char_pos as int
        } else {
            n as int
        });
        assert(s@.take(n as int) =~= s@);
    }
    if char_pos < n {
        let head = s.substring_char(0, char_pos);
        head.as_bytes().len()
    } else {
        s.as_bytes().len()
    }
}

/// Bytes of words: ASCII letters, digits and `_`; with `colon` also `:`, which
/// recording rules have in their names.
pub open spec fn word_byte(b: u8, colon: bool) -> bool {
    '0' as u8 <= b <= '9' as u8 || 'a' as u8 <= b <= 'z' as u8 || 'A' as u8 <= b <= 'Z' as u8 || b
        == '_' as u8 || (colon && b == ':' as u8)
}

/// The start of the longest run of word bytes that ends at `end`.
pub open spec fn word_start(b: Seq<u8>, end: int, colon: bool) -> int
    decreases end,
{
    if 0 < end <= b.len() && word_byte(b[end - 1], colon) {
        word_start(b, end - 1, colon)
    } else {
        end
    }
}

/// Whether `b` can stand in a word.
pub fn is_word_byte(b: u8, colon: bool) -> (r: bool)
    ensures
        r == word_byte(b, colon),
{
    '0' as u8 <= b && b <= '9' as u8 || 'a' as u8 <= b && b <= 'z' as u8 || 'A' as u8 <= b && b
        <= 'Z' as u8 || b == '_' as u8 || (colon && b == ':' as u8)
}

/// The start of the last word in the text.
pub fn last_word_start(s: &str, colon: bool) -> (r: usize)
    ensures
        r == word_start(s.spec_bytes(), s.spec_bytes().len() as int, colon),
        r <= s.spec_bytes().len(),
        is_char_boundary(s.spec_bytes(), r as int),
{
    let bytes = s.as_bytes();
    let mut i: usize = bytes.len();
    proof {
        encode_utf8_valid_utf8(s@);
        lemma_boundary(bytes@, i as int);
    }
    while i > 0 && is_word_byte(bytes[i - 1], colon)
        invariant
            i <= bytes.len(),
            valid_utf8(bytes@),
            is_char_boundary(bytes@, i as int),
            word_start(bytes@, bytes.len() as int, colon) == word_start(bytes@, i as int, colon),
        decreases i,
    {
        proof {
            lemma_boundary_after_ascii(bytes@, i - 1);
        }
        i -= 1;
    }
    i
}

/// The byte offset of the start of the last word in `s`. Word characters are
/// ASCII letters and digits, `_` and `:`.
pub fn word_boundary_byte(s: &str) -> (r: usize)
    ensures
        r == word_start(s.spec_bytes(), s.spec_bytes().len() as int, true),
        r <= s.spec_bytes().len(),
        is_char_boundary(s.spec_bytes(), r as int),
{
    last_word_start(s, true)
}

} // verus!
