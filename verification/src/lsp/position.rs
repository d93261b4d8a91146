//! Positions in a document: lines and columns in UTF-16 code units, as the
//! language server protocol counts them.

use crate::edit::to_chars;
use crate::text::{
    byte_offset, lemma_boundary, lemma_byte_offset, lemma_text_split, substr, text_in,
};
use crate::util::{char_to_byte, last_word_start, word_start};
use vstd::prelude::*;
use vstd::string::*;
use vstd::utf8::*;

verus! {

/// A position: a line, and a column in UTF-16 code units.
#[derive(Debug, Clone, Copy, PartialEq, Eq, Structural)]
pub struct Position {
    pub line: u32,
    pub character: u32,
}

/// A part of a document.
#[derive(Debug, Clone, Copy, PartialEq, Eq, Structural)]
pub struct Range {
    pub start: Position,
    pub end: Position,
}

// ── Lines and columns ────────────────────────────────────────────────────────

/// The number of UTF-16 code units of a character.
pub open spec fn units(c: char) -> int {
    if c as u32 >= 0x10000 {
        2
    } else {
        1
    }
}

/// The number of UTF-16 code units of a text.
pub open spec fn columns(s: Seq<char>) -> int
    decreases s.len(),
{
    if s.len() == 0 {
        0
    } else {
        units(s[0]) + columns(s.drop_first())
    }
}

/// The number of line ends in a text.
pub open spec fn newlines(s: Seq<char>) -> int
    decreases s.len(),
{
    if s.len() == 0 {
        0
    } else {
        newlines(s.drop_first()) + if s[0] == '\n' {
            1int
        } else {
            0
        }
    }
}

/// What stands behind the last line end.
pub open spec fn last_line(s: Seq<char>) -> Seq<char>
    decreases s.len(),
{
    if s.len() == 0 || newlines(s) == 0 {
        s
    } else {
        last_line(s.drop_first())
    }
}

/// What stands before a byte offset, which is cut to the text.
pub open spec fn before_offset(b: Seq<u8>, offset: int) -> Seq<char> {
    if offset < b.len() {
        text_in(b, 0, offset)
    } else {
        text_in(b, 0, b.len() as int)
    }
}

/// Whether the position of a byte offset can be given: the offset cuts no
/// character in two, and the column can be counted.
pub open spec fn position_fits(b: Seq<u8>, offset: int) -> bool {
    &&& offset < b.len() ==> is_char_boundary(b, offset)
    &&& columns(last_line(before_offset(b, offset))) <= u32::MAX
}

/// Whether `p` is the position behind a text. Lines are counted modulo 2^32.
pub open spec fn position_behind(s: Seq<char>, p: Position) -> bool {
    &&& p.line as int == newlines(s) % 0x1_0000_0000
    &&& p.character as int == columns(last_line(s))
}

proof fn lemma_push(s: Seq<char>, c: char)
    ensures
        newlines(s) >= 0,
        newlines(s.push(c)) == newlines(s) + if c == '\n' {
            1int
        } else {
            0
        },
        columns(s.push(c)) == columns(s) + units(c),
    decreases s.len(),
{
    reveal_with_fuel(newlines, 2);
    reveal_with_fuel(columns, 2);
    if s.len() > 0 {
        lemma_push(s.drop_first(), c);
        assert(s.push(c)[0] == s[0]);
        assert(s.push(c).drop_first() =~= s.drop_first().push(c));
    } else {
        assert(s.push(c).drop_first() =~= seq![]);
    }
}

proof fn lemma_last_line_push(s: Seq<char>, c: char)
    ensures
        last_line(s.push(c)) == if c == '\n' {
            seq![]
        } else {
            last_line(s).push(c)
        },
    decreases s.len(),
{
    reveal_with_fuel(last_line, 2);
    lemma_push(s, c);
    if s.len() == 0 {
        assert(s.push(c).drop_first() =~= seq![]);
        assert(s.push(c) =~= last_line(s).push(c));
    } else {
        assert(s.push(c).drop_first() =~= s.drop_first().push(c));
        lemma_push(s.drop_first(), c);
        if newlines(s.push(c)) > 0 {
            lemma_last_line_push(s.drop_first(), c);
            if newlines(s) == 0 {
                assert(newlines(s.drop_first()) == 0);
            }
        }
    }
}

fn unit_count(c: char) -> (r: u32)
    ensures
        r == units(c),
{
    if c as u32 >= 0x10000 {
        2
    } else {
        1
    }
}

/// The position behind a text, with a column up to `u32::MAX`.
fn position_after(s: &str) -> (r: Position)
    ensures
        r.line as int == newlines(s@) % 0x1_0000_0000,
        columns(last_line(s@)) <= u32::MAX ==> r.character == columns(last_line(s@)),
        columns(last_line(s@)) > u32::MAX ==> r.character == u32::MAX,
{
    let chars = to_chars(s);
    let mut line: u32 = 0;
    let mut character: u32 = 0;
    let mut i: usize = 0;
    assert(chars@.take(0) =~= seq![]);
    while i < chars.len()
        invariant
            i <= chars.len(),
            newlines(chars@.take(i as int)) >= 0,
            line as int == newlines(chars@.take(i as int)) % 0x1_0000_0000,
            columns(last_line(chars@.take(i as int))) <= u32::MAX ==> character == columns(
                last_line(chars@.take(i as int)),
            ),
            columns(last_line(chars@.take(i as int))) > u32::MAX ==> character == u32::MAX,
        decreases chars.len() - i,
    {
        let c = chars[i];
        proof {
            let before = chars@.take(i as int);
            assert(chars@.take(i + 1) =~= before.push(c));
            lemma_push(before, c);
            lemma_push(last_line(before), c);
            lemma_last_line_push(before, c);
        }
        if c == '\n' {
            line = if line == u32::MAX {
                0
            } else {
                line + 1
            };
            character = 0;
        } else {
            let n = unit_count(c);
            character = if character > u32::MAX - n {
                u32::MAX
            } else {
                character + n
            };
        }
        i += 1;
    }
    assert(chars@.take(i as int) =~= s@);
    Position { line, character }
}

// ── From offsets to positions ────────────────────────────────────────────────

/// The part of a text before a byte offset, which is cut to the text.
fn take_before<'a>(text: &'a str, byte_offset: usize) -> (r: &'a str)
    requires
        byte_offset < text.spec_bytes().len() ==> is_char_boundary(
            text.spec_bytes(),
            byte_offset as int,
        ),
    ensures
        r@ == before_offset(text.spec_bytes(), byte_offset as int),
        r.spec_bytes() == text.spec_bytes().subrange(
            0,
            if byte_offset < text.spec_bytes().len() {
                byte_offset as int
            } else {
                text.spec_bytes().len() as int
            },
        ),
{
    let n = text.as_bytes().len();
    let end: usize = if byte_offset < n {
        byte_offset
    } else {
        n
    };
    proof {
        encode_utf8_valid_utf8(text@);
        is_char_boundary_start_end_of_seq(text.spec_bytes());
    }
    substr(text, 0, end)
}

/// Convert a byte offset in `text` to a position.
pub fn byte_to_lsp_position(text: &str, byte_offset: usize) -> (r: Position)
    requires
        position_fits(text.spec_bytes(), byte_offset as int),
    ensures
        position_behind(before_offset(text.spec_bytes(), byte_offset as int), r),
{
    position_after(take_before(text, byte_offset))
}

/// Whether the columns of every line can be counted.
pub open spec fn lines_fit(s: Seq<char>) -> bool {
    forall|n: int| 0 <= n <= s.len() ==> columns(last_line(#[trigger] s.take(n))) <= u32::MAX
}

/// Whether the columns of every line can be counted.
pub fn lines_in_range(text: &str) -> (r: bool)
    ensures
        r == lines_fit(text@),
{
    let chars = to_chars(text);
    let mut count: u32 = 0;
    let mut i: usize = 0;
    assert(text@.take(0) =~= seq![]);
    while i < chars.len()
        invariant
            i <= chars.len(),
            chars@ == text@,
            count == columns(last_line(text@.take(i as int))),
            forall|n: int|
                0 <= n <= i ==> columns(last_line(#[trigger] text@.take(n))) <= u32::MAX,
        decreases chars.len() - i,
    {
        let c = chars[i];
        let n = unit_count(c);
        proof {
            let before = text@.take(i as int);
            assert(text@.take(i + 1) =~= before.push(c));
            lemma_push(last_line(before), c);
            lemma_last_line_push(before, c);
        }
        if c == '\n' {
            count = 0;
        } else if count <= u32::MAX - n {
            count += n;
        } else {
            assert(columns(last_line(text@.take(i + 1))) > u32::MAX);
            return false;
        }
        i += 1;
    }
    true
}

/// Where the columns of every line can be counted, every place between
/// characters has a position.
pub proof fn lemma_position_fits(s: Seq<char>, offset: int)
    requires
        lines_fit(s),
        0 <= offset <= encode_utf8(s).len(),
        is_char_boundary(encode_utf8(s), offset),
    ensures
        position_fits(encode_utf8(s), offset),
        before_offset(encode_utf8(s), offset) == s.take(
            before_offset(encode_utf8(s), offset).len() as int,
        ),
{
    let b = encode_utf8(s);
    encode_utf8_valid_utf8(s);
    is_char_boundary_start_end_of_seq(b);
    encode_utf8_decode_utf8(s);
    lemma_text_split(b, 0, offset, b.len() as int);
    assert(b.subrange(0, b.len() as int) =~= b);
    let before = text_in(b, 0, offset);
    assert(before =~= s.take(before.len() as int));
}

/// The range between two byte offsets.
pub(crate) fn byte_range_to_lsp(text: &str, start: usize, end: usize) -> (r: Range)
    requires
        position_fits(text.spec_bytes(), start as int),
        position_fits(text.spec_bytes(), end as int),
    ensures
        position_behind(before_offset(text.spec_bytes(), start as int), r.start),
        position_behind(before_offset(text.spec_bytes(), end as int), r.end),
{
    Range { start: byte_to_lsp_position(text, start), end: byte_to_lsp_position(text, end) }
}

/// The number of characters before a byte offset.
pub(crate) fn cursor_byte_to_char(text: &str, byte_offset: usize) -> (r: usize)
    requires
        byte_offset < text.spec_bytes().len() ==> is_char_boundary(
            text.spec_bytes(),
            byte_offset as int,
        ),
    ensures
        r == before_offset(text.spec_bytes(), byte_offset as int).len(),
{
    take_before(text, byte_offset).unicode_len()
}

/// The byte offset at which the word before the cursor starts.
pub(crate) fn prefix_start_byte(text: &str, cursor_byte: usize) -> (r: usize)
    requires
        cursor_byte <= text.spec_bytes().len(),
        is_char_boundary(text.spec_bytes(), cursor_byte as int),
    ensures
        r == word_start(text.spec_bytes(), cursor_byte as int, true),
        r <= cursor_byte,
        is_char_boundary(text.spec_bytes(), r as int),
{
    let before = take_before(text, cursor_byte);
    let r = last_word_start(before, true);
    proof {
        encode_utf8_valid_utf8(text@);
        encode_utf8_valid_utf8(before@);
        lemma_word_start_prefix(text.spec_bytes(), cursor_byte as int, cursor_byte as int);
        lemma_boundary(before.spec_bytes(), r as int);
        lemma_boundary(text.spec_bytes(), r as int);
    }
    r
}

proof fn lemma_word_start_prefix(b: Seq<u8>, cut: int, end: int)
    requires
        0 <= end <= cut <= b.len(),
    ensures
        word_start(b.subrange(0, cut), end, true) == word_start(b, end, true),
    decreases end,
{
    if end > 0 {
        lemma_word_start_prefix(b, cut, end - 1);
    }
}

// ── From positions to offsets ────────────────────────────────────────────────

/// The start of the `line`-th line behind the character at `at`, or of the last
/// line where there are fewer. The line that `at` stands in starts at `start`.
pub open spec fn line_index(s: Seq<char>, at: int, start: int, line: int) -> int
    decreases s.len() - at,
{
    if line <= 0 || at < 0 || at >= s.len() {
        start
    } else if s[at] == '\n' {
        line_index(s, at + 1, at + 1, line - 1)
    } else {
        line_index(s, at + 1, start, line)
    }
}

/// The first character that is `wanted` code units or more behind `at`, or the
/// end of the text.
pub open spec fn column_index(s: Seq<char>, at: int, wanted: int) -> int
    decreases s.len() - at,
{
    if wanted <= 0 || at < 0 || at >= s.len() {
        at
    } else {
        column_index(s, at + 1, wanted - units(s[at]))
    }
}

/// The character at a position.
pub open spec fn position_index(s: Seq<char>, p: Position) -> int {
    column_index(s, line_index(s, 0, 0, p.line as int), p.character as int)
}

proof fn lemma_line_index(s: Seq<char>, at: int, start: int, line: int)
    requires
        0 <= start <= at <= s.len(),
    ensures
        0 <= line_index(s, at, start, line) <= s.len(),
    decreases s.len() - at,
{
    if line > 0 && at < s.len() {
        if s[at] == '\n' {
            lemma_line_index(s, at + 1, at + 1, line - 1);
        } else {
            lemma_line_index(s, at + 1, start, line);
        }
    }
}

proof fn lemma_column_index(s: Seq<char>, at: int, wanted: int)
    requires
        0 <= at <= s.len(),
    ensures
        at <= column_index(s, at, wanted) <= s.len(),
    decreases s.len() - at,
{
    if wanted > 0 && at < s.len() {
        lemma_column_index(s, at + 1, wanted - units(s[at]));
    }
}

/// Convert a position to a byte offset in `text`.
pub fn lsp_position_to_byte(text: &str, pos: Position) -> (r: usize)
    ensures
        0 <= position_index(text@, pos) <= text@.len(),
        r == byte_offset(text@, position_index(text@, pos)),
        r <= text.spec_bytes().len(),
        is_char_boundary(text.spec_bytes(), r as int),
{
    let chars = to_chars(text);
    let mut line: u32 = 0;
    let mut line_start: usize = 0;
    let mut i: usize = 0;
    while i < chars.len() && line != pos.line
        invariant
            line_start <= i <= chars.len(),
            line <= pos.line,
            line_index(chars@, 0, 0, pos.line as int) == line_index(
                chars@,
                i as int,
                line_start as int,
                pos.line - line,
            ),
        decreases chars.len() - i,
    {
        if chars[i] == '\n' {
            line += 1;
            line_start = i + 1;
        }
        i += 1;
    }
    let mut at: usize = line_start;
    let mut left: u32 = pos.character;
    while at < chars.len() && left > 0
        invariant
            at <= chars.len(),
            column_index(chars@, line_start as int, pos.character as int) == column_index(
                chars@,
                at as int,
                left as int,
            ),
        decreases chars.len() - at,
    {
        let n = unit_count(chars[at]);
        proof {
            if left < n {
                lemma_column_done(chars@, at + 1, left - n);
            }
        }
        left = if left > n {
            left - n
        } else {
            0
        };
        at += 1;
    }
    proof {
        lemma_byte_offset(text@, at as int);
        assert(text@.take(text@.len() as int) =~= text@);
    }
    char_to_byte(text, at)
}

proof fn lemma_column_done(s: Seq<char>, at: int, wanted: int)
    requires
        wanted <= 0,
    ensures
        column_index(s, at, wanted) == column_index(s, at, 0),
{
}

// ── Laws ─────────────────────────────────────────────────────────────────────

proof fn lemma_line_of(s: Seq<char>, at: int, start: int, n: int)
    requires
        0 <= start <= at <= n <= s.len(),
    ensures
        line_index(s, at, start, newlines(s.subrange(at, n))) == if newlines(s.subrange(at, n))
            == 0 {
            start
        } else {
            n - last_line(s.subrange(at, n)).len()
        },
        newlines(s.subrange(at, n)) >= 0,
        newlines(s.subrange(at, n)) == 0 ==> last_line(s.subrange(at, n)) == s.subrange(at, n),
    decreases n - at,
{
    let rest = s.subrange(at, n);
    if at < n {
        assert(rest.drop_first() =~= s.subrange(at + 1, n));
        if s[at] == '\n' {
            lemma_line_of(s, at + 1, at + 1, n);
        } else {
            lemma_line_of(s, at + 1, start, n);
        }
    }
}

proof fn lemma_column_of(s: Seq<char>, at: int, n: int)
    requires
        0 <= at <= n <= s.len(),
    ensures
        column_index(s, at, columns(s.subrange(at, n))) == n,
        columns(s.subrange(at, n)) >= n - at,
    decreases n - at,
{
    if at < n {
        assert(s.subrange(at, n).drop_first() =~= s.subrange(at + 1, n));
        lemma_column_of(s, at + 1, n);
    }
}

proof fn lemma_last_line_suffix(s: Seq<char>)
    ensures
        last_line(s).len() <= s.len(),
        last_line(s) == s.skip(s.len() - last_line(s).len()),
    decreases s.len(),
{
    if s.len() == 0 || newlines(s) == 0 {
        assert(s.skip(0) =~= s);
    } else {
        lemma_last_line_suffix(s.drop_first());
        let k = last_line(s).len();
        assert(s.drop_first().skip(s.len() - 1 - k) =~= s.skip(s.len() - k));
    }
}

/// The position behind the first `n` characters of a text leads back to them.
pub proof fn lemma_position_round_trip(s: Seq<char>, n: int, p: Position)
    requires
        0 <= n <= s.len(),
        newlines(s.take(n)) <= u32::MAX,
        position_behind(s.take(n), p),
    ensures
        position_index(s, p) == n,
{
    let before = s.take(n);
    assert(before =~= s.subrange(0, n));
    lemma_line_of(s, 0, 0, n);
    lemma_last_line_suffix(before);
    let start = n - last_line(before).len();
    assert(line_index(s, 0, 0, newlines(before)) == start);
    assert(last_line(before) =~= s.subrange(start, n));
    lemma_column_of(s, start, n);
}

} // verus!
