//! Editing of one-line texts.

use crate::text::{
    lemma_byte_offset, lemma_range_valid, lemma_text_split, substr, text_in,
};
use vstd::prelude::*;
use vstd::string::*;
use vstd::utf8::*;

verus! {

/// The characters of a string.
pub fn to_chars(s: &str) -> (r: Vec<char>)
    ensures
        r@ == s@,
{
    let mut out: Vec<char> = Vec::new();
    for c in it: s.chars()
        invariant
            it.seq() == s@,
            out@ == it.seq().take(it.index()),
    {
        out.push(c);
        assert(it.seq().take(it.index() + 1) =~= it.seq().take(it.index()).push(c));
    }
    assert(out@ =~= s@);
    out
}

/// Inserts `c` at a character position.
pub fn insert_char(s: &mut String, at: usize, c: char)
    requires
        at <= old(s)@.len(),
    ensures
        final(s)@ == old(s)@.insert(at as int, c),
{
    let n = s.as_str().unicode_len();
    let mut out = s.as_str().substring_char(0, at).to_string();
    out.push(c);
    out.append(s.as_str().substring_char(at, n));
    assert(out@ =~= s@.insert(at as int, c));
    *s = out;
}

/// Removes the character at a character position.
pub fn remove_char(s: &mut String, at: usize)
    requires
        at < old(s)@.len(),
    ensures
        final(s)@ == old(s)@.remove(at as int),
{
    let n = s.as_str().unicode_len();
    let mut out = s.as_str().substring_char(0, at).to_string();
    out.append(s.as_str().substring_char(at + 1, n));
    assert(out@ =~= s@.remove(at as int));
    *s = out;
}

/// `s` without its last character, if it has one.
pub open spec fn without_last(s: Seq<char>) -> Seq<char> {
    if s.len() > 0 {
        s.drop_last()
    } else {
        s
    }
}

/// Removes the last character, if there is one.
pub fn pop_char(s: &mut String)
    ensures
        final(s)@ == without_last(old(s)@),
{
    let n = s.as_str().unicode_len();
    if n > 0 {
        let out = s.as_str().substring_char(0, n - 1).to_string();
        assert(out@ =~= s@.drop_last());
        *s = out;
    }
}

// ── A cursor that counts bytes ───────────────────────────────────────────────

/// Whether a byte cursor stands between two characters of the text.
pub open spec fn cursor_valid(s: Seq<char>, cursor: int) -> bool {
    0 <= cursor <= encode_utf8(s).len() && is_char_boundary(encode_utf8(s), cursor)
}

/// The text before the cursor.
pub open spec fn before_cursor(s: Seq<char>, cursor: int) -> Seq<char> {
    text_in(encode_utf8(s), 0, cursor)
}

/// The text behind the cursor.
pub open spec fn behind_cursor(s: Seq<char>, cursor: int) -> Seq<char> {
    text_in(encode_utf8(s), cursor, encode_utf8(s).len() as int)
}

/// Whether the cursor stands behind `before` and the text goes on with `behind`.
pub open spec fn cursor_between(
    s: Seq<char>,
    cursor: int,
    before: Seq<char>,
    behind: Seq<char>,
) -> bool {
    s == before + behind && cursor == encode_utf8(before).len()
}

/// A cursor splits the text in two.
pub proof fn lemma_cursor_splits(s: Seq<char>, cursor: int)
    requires
        cursor_valid(s, cursor),
    ensures
        s == before_cursor(s, cursor) + behind_cursor(s, cursor),
        encode_utf8(before_cursor(s, cursor)).len() == cursor,
{
    let b = encode_utf8(s);
    encode_utf8_valid_utf8(s);
    encode_utf8_decode_utf8(s);
    is_char_boundary_start_end_of_seq(b);
    lemma_text_split(b, 0, cursor, b.len() as int);
    assert(b.subrange(0, b.len() as int) =~= b);
    lemma_range_valid(b, 0, cursor);
    decode_utf8_encode_utf8(b.subrange(0, cursor));
}

/// Where two texts meet, a cursor can stand; it splits the text into them.
pub proof fn lemma_cursor_between(before: Seq<char>, behind: Seq<char>)
    ensures
        cursor_valid(before + behind, encode_utf8(before).len() as int),
        before_cursor(before + behind, encode_utf8(before).len() as int) == before,
        behind_cursor(before + behind, encode_utf8(before).len() as int) == behind,
{
    let s = before + behind;
    let n = before.len() as int;
    assert(s.take(n) =~= before);
    assert(s.skip(n) =~= behind);
    lemma_byte_offset(s, n);
    encode_utf8_decode_utf8(before);
    encode_utf8_decode_utf8(behind);
}

/// Inserts `c` at the cursor and moves the cursor behind it.
pub fn insert_at_cursor(s: &mut String, cursor: &mut usize, c: char)
    requires
        cursor_valid(old(s)@, *old(cursor) as int),
    ensures
        cursor_between(
            final(s)@,
            *final(cursor) as int,
            before_cursor(old(s)@, *old(cursor) as int).push(c),
            behind_cursor(old(s)@, *old(cursor) as int),
        ),
        cursor_valid(final(s)@, *final(cursor) as int),
{
    let text = s.as_str();
    let len = text.as_bytes().len();
    proof {
        encode_utf8_valid_utf8(s@);
        is_char_boundary_start_end_of_seq(encode_utf8(s@));
    }
    let mut out = substr(text, 0, *cursor).to_string();
    out.push(c);
    let at = out.as_str().as_bytes().len();
    proof {
        lemma_cursor_between(out@, behind_cursor(s@, *cursor as int));
    }
    out.append(substr(text, *cursor, len));
    *cursor = at;
    *s = out;
}

/// Removes the character before the cursor and moves the cursor there; nothing
/// happens at the start. Returns whether there was a character.
pub fn delete_before_cursor(s: &mut String, cursor: &mut usize) -> (deleted: bool)
    requires
        cursor_valid(old(s)@, *old(cursor) as int),
    ensures
        deleted == (*old(cursor) > 0),
        deleted ==> before_cursor(old(s)@, *old(cursor) as int).len() > 0 && cursor_between(
            final(s)@,
            *final(cursor) as int,
            before_cursor(old(s)@, *old(cursor) as int).drop_last(),
            behind_cursor(old(s)@, *old(cursor) as int),
        ),
        !deleted ==> *final(s) == *old(s) && *final(cursor) == *old(cursor),
        cursor_valid(final(s)@, *final(cursor) as int),
{
    if *cursor == 0 {
        return false;
    }
    let text = s.as_str();
    let len = text.as_bytes().len();
    proof {
        encode_utf8_valid_utf8(s@);
        is_char_boundary_start_end_of_seq(encode_utf8(s@));
        lemma_cursor_splits(s@, *cursor as int);
    }
    let before = substr(text, 0, *cursor);
    let n = before.unicode_len();
    proof {
        if n == 0 {
            assert(before@ =~= seq![]);
        }
    }
    let mut out = before.substring_char(0, n - 1).to_string();
    let at = out.as_str().as_bytes().len();
    proof {
        assert(out@ =~= before@.drop_last());
        lemma_cursor_between(out@, behind_cursor(s@, *cursor as int));
    }
    out.append(substr(text, *cursor, len));
    *cursor = at;
    *s = out;
    true
}

/// The cursor one character to the left; at the start it stays.
pub fn cursor_left(s: &str, cursor: usize) -> (r: usize)
    requires
        cursor_valid(s@, cursor as int),
    ensures
        cursor == 0 ==> r == 0,
        cursor > 0 ==> before_cursor(s@, cursor as int).len() > 0 && r == encode_utf8(
            before_cursor(s@, cursor as int).drop_last(),
        ).len(),
        cursor_valid(s@, r as int),
{
    if cursor == 0 {
        return 0;
    }
    proof {
        encode_utf8_valid_utf8(s@);
        is_char_boundary_start_end_of_seq(encode_utf8(s@));
        lemma_cursor_splits(s@, cursor as int);
    }
    let before = substr(s, 0, cursor);
    let n = before.unicode_len();
    proof {
        if n == 0 {
            assert(before@ =~= seq![]);
        }
    }
    let head = before.substring_char(0, n - 1);
    proof {
        assert(head@ =~= before@.drop_last());
        let behind = seq![before@.last()] + behind_cursor(s@, cursor as int);
        assert(head@ + behind =~= s@);
        lemma_cursor_between(head@, behind);
    }
    head.as_bytes().len()
}

/// The cursor one character to the right; at the end it stays.
pub fn cursor_right(s: &str, cursor: usize) -> (r: usize)
    requires
        cursor_valid(s@, cursor as int),
    ensures
        cursor == encode_utf8(s@).len() ==> r == cursor,
        cursor < encode_utf8(s@).len() ==> behind_cursor(s@, cursor as int).len() > 0 && r
            == encode_utf8(
            before_cursor(s@, cursor as int).push(behind_cursor(s@, cursor as int)[0]),
        ).len(),
        cursor_valid(s@, r as int),
{
    let len = s.as_bytes().len();
    if cursor == len {
        return cursor;
    }
    proof {
        encode_utf8_valid_utf8(s@);
        is_char_boundary_start_end_of_seq(encode_utf8(s@));
        lemma_cursor_splits(s@, cursor as int);
    }
    let behind = substr(s, cursor, len);
    let n = substr(s, 0, cursor).unicode_len();
    let total = s.unicode_len();
    proof {
        if behind@.len() == 0 {
            assert(behind@ =~= seq![]);
            assert(encode_utf8(s@) =~= encode_utf8(before_cursor(s@, cursor as int))) by {
                assert(s@ =~= before_cursor(s@, cursor as int));
            }
        }
    }
    assert(n < total);
    let head = s.substring_char(0, n + 1);
    proof {
        let before = before_cursor(s@, cursor as int);
        assert(head@ =~= before.push(behind@[0]));
        assert(head@ + behind@.drop_first() =~= s@);
        lemma_cursor_between(head@, behind@.drop_first());
    }
    head.as_bytes().len()
}

} // verus!
