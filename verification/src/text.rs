//! Text primitives: byte offsets into UTF-8 strings, slices and comparisons.
//!
//! A string is modelled by its characters (`s@`) or, where byte offsets matter,
//! by its UTF-8 encoding (`s.spec_bytes()`).

use vstd::prelude::*;
use vstd::string::*;
use vstd::utf8::*;

verus! {

/// The characters of the byte range `start..end` of `bytes`.
pub open spec fn text_in(bytes: Seq<u8>, start: int, end: int) -> Seq<char> {
    decode_utf8(bytes.subrange(start, end))
}

/// A byte offset is a character boundary exactly when it is the end of the
/// text or does not point into the middle of a character.
pub proof fn lemma_boundary(bytes: Seq<u8>, index: int)
    requires
        valid_utf8(bytes),
        0 <= index <= bytes.len(),
    ensures
        is_char_boundary(bytes, index) <==> (index == bytes.len() || !is_continuation_byte(
            bytes[index],
        )),
{
    if index == bytes.len() {
        is_char_boundary_start_end_of_seq(bytes);
    } else {
        is_char_boundary_iff_not_is_continuation_byte(bytes, index);
    }
}

/// The offset just behind an ASCII byte is a character boundary.
pub proof fn lemma_boundary_after_ascii(bytes: Seq<u8>, index: int)
    requires
        valid_utf8(bytes),
        0 <= index < bytes.len(),
        bytes[index] < 0x80,
    ensures
        is_char_boundary(bytes, index),
        is_char_boundary(bytes, index + 1),
    decreases bytes.len(),
{
    lemma_boundary(bytes, index);
    let n = length_of_first_scalar(bytes);
    let rest = pop_first_scalar(bytes);
    if index == 0 {
        assert(n == 1);
        assert(is_char_boundary(rest, 0)) by {
            is_char_boundary_start_end_of_seq(rest);
        }
    } else {
        assert(index >= n);
        assert(rest[index - n] == bytes[index]);
        lemma_boundary_after_ascii(rest, index - n);
    }
}

/// The number of bytes of the character whose first byte is `b`.
pub open spec fn char_width(b: u8) -> int {
    if b < 0x80 {
        1
    } else if b < 0xe0 {
        2
    } else if b < 0xf0 {
        3
    } else {
        4
    }
}

/// From one character boundary to the next.
pub proof fn lemma_boundary_next(bytes: Seq<u8>, index: int)
    requires
        valid_utf8(bytes),
        0 <= index < bytes.len(),
        is_char_boundary(bytes, index),
    ensures
        index + char_width(bytes[index]) <= bytes.len(),
        is_char_boundary(bytes, index + char_width(bytes[index])),
        bytes[index] < 0x80 || bytes[index] >= 0xc0,
    decreases bytes.len(),
{
    let n = length_of_first_scalar(bytes);
    let rest = pop_first_scalar(bytes);
    if index == 0 {
        assert(n == char_width(bytes[0]));
        is_char_boundary_start_end_of_seq(rest);
    } else {
        lemma_boundary(bytes, index);
        assert(index >= n);
        assert(rest[index - n] == bytes[index]);
        lemma_boundary_next(rest, index - n);
    }
}

/// Boundaries of a text are boundaries of what is left when its end is cut off.
pub proof fn lemma_boundary_prefix(bytes: Seq<u8>, index: int, end: int)
    requires
        valid_utf8(bytes),
        0 <= index <= end <= bytes.len(),
        is_char_boundary(bytes, end),
    ensures
        valid_utf8(bytes.subrange(0, end)),
        is_char_boundary(bytes.subrange(0, end), index) == is_char_boundary(bytes, index),
{
    valid_utf8_split(bytes, end);
    lemma_boundary(bytes, index);
    lemma_boundary(bytes.subrange(0, end), index);
}

/// A byte range between two boundaries is itself well-formed text.
pub proof fn lemma_range_valid(bytes: Seq<u8>, start: int, end: int)
    requires
        valid_utf8(bytes),
        0 <= start <= end <= bytes.len(),
        is_char_boundary(bytes, start),
        is_char_boundary(bytes, end),
    ensures
        valid_utf8(bytes.subrange(start, end)),
{
    lemma_boundary_prefix(bytes, start, end);
    let prefix = bytes.subrange(0, end);
    valid_utf8_split(prefix, start);
    assert(prefix.subrange(start, end) =~= bytes.subrange(start, end));
}

/// A text between two boundaries splits at a boundary in between.
pub proof fn lemma_text_split(bytes: Seq<u8>, start: int, mid: int, end: int)
    requires
        valid_utf8(bytes),
        0 <= start <= mid <= end <= bytes.len(),
        is_char_boundary(bytes, start),
        is_char_boundary(bytes, mid),
        is_char_boundary(bytes, end),
    ensures
        text_in(bytes, start, end) == text_in(bytes, start, mid) + text_in(bytes, mid, end),
{
    lemma_range_valid(bytes, start, end);
    let part = bytes.subrange(start, end);
    lemma_boundary(part, mid - start);
    lemma_boundary(bytes, mid);
    decode_utf8_split(part, mid - start);
    assert(part.subrange(0, mid - start) =~= bytes.subrange(start, mid));
    assert(part.subrange(mid - start, part.len() as int) =~= bytes.subrange(mid, end));
}

/// Texts with the same bytes have the same characters.
pub proof fn lemma_utf8_injective(a: Seq<char>, b: Seq<char>)
    requires
        encode_utf8(a) == encode_utf8(b),
    ensures
        a == b,
{
    encode_utf8_decode_utf8(a);
    encode_utf8_decode_utf8(b);
}

/// The part of `s` between two byte offsets.
pub fn substr<'a>(s: &'a str, start: usize, end: usize) -> (r: &'a str)
    requires
        start <= end <= s.spec_bytes().len(),
        is_char_boundary(s.spec_bytes(), start as int),
        is_char_boundary(s.spec_bytes(), end as int),
    ensures
        r.spec_bytes() == s.spec_bytes().subrange(start as int, end as int),
        r@ == text_in(s.spec_bytes(), start as int, end as int),
{
    proof {
        encode_utf8_valid_utf8(s@);
        lemma_boundary_prefix(s.spec_bytes(), start as int, end as int);
    }
    let head = s.split_at(end).0;
    let r = head.split_at(start).1;
    proof {
        assert(r.spec_bytes() =~= s.spec_bytes().subrange(start as int, end as int));
        encode_utf8_decode_utf8(r@);
    }
    r
}

/// The characters of an optional string.
pub open spec fn opt_text(s: Option<String>) -> Option<Seq<char>> {
    match s {
        Some(s) => Some(s@),
        None => None,
    }
}

/// Whether two byte strings are equal.
pub fn bytes_eq(a: &[u8], b: &[u8]) -> (r: bool)
    ensures
        r == (a@ == b@),
{
    if a.len() != b.len() {
        return false;
    }
    let mut i: usize = 0;
    while i < a.len()
        invariant
            i <= a.len(),
            a.len() == b.len(),
            forall|k: int| 0 <= k < i ==> a[k] == b[k],
        decreases a.len() - i,
    {
        if a[i] != b[i] {
            return false;
        }
        i += 1;
    }
    assert(a@ =~= b@);
    true
}

/// Whether two strings hold the same text.
pub fn str_eq(a: &str, b: &str) -> (r: bool)
    ensures
        r == (a@ == b@),
{
    let r = bytes_eq(a.as_bytes(), b.as_bytes());
    proof {
        if r {
            lemma_utf8_injective(a@, b@);
        }
    }
    r
}

// ── Character positions and byte offsets ─────────────────────────────────────

/// The encoding of joined texts is the joined encodings.
pub proof fn lemma_encode_concat(a: Seq<char>, b: Seq<char>)
    ensures
        encode_utf8(a + b) == encode_utf8(a) + encode_utf8(b),
    decreases a.len(),
{
    if a.len() == 0 {
        assert(a + b =~= b);
        assert(encode_utf8(a) + encode_utf8(b) =~= encode_utf8(b));
    } else {
        lemma_encode_concat(a.drop_first(), b);
        assert((a + b).drop_first() =~= a.drop_first() + b);
        assert((a + b)[0] == a[0]);
        assert(encode_utf8(a + b) =~= encode_utf8(a) + encode_utf8(b));
    }
}

/// The byte offset behind the first `n` characters.
pub open spec fn byte_offset(s: Seq<char>, n: int) -> int {
    encode_utf8(s.take(n)).len() as int
}

/// The offset behind some characters is a boundary, and cuts the text there.
pub proof fn lemma_byte_offset(s: Seq<char>, n: int)
    requires
        0 <= n <= s.len(),
    ensures
        0 <= byte_offset(s, n) <= encode_utf8(s).len(),
        is_char_boundary(encode_utf8(s), byte_offset(s, n)),
        encode_utf8(s).subrange(0, byte_offset(s, n)) == encode_utf8(s.take(n)),
        encode_utf8(s).subrange(byte_offset(s, n), encode_utf8(s).len() as int) == encode_utf8(
            s.skip(n),
        ),
{
    let a = s.take(n);
    let b = s.skip(n);
    assert(a + b =~= s);
    lemma_encode_concat(a, b);
    encode_utf8_valid_utf8(s);
    encode_utf8_valid_utf8(b);
    let i = byte_offset(s, n);
    lemma_boundary(encode_utf8(s), i);
    lemma_boundary(encode_utf8(b), 0);
    is_char_boundary_start_end_of_seq(encode_utf8(b));
    assert(encode_utf8(s).subrange(0, i) =~= encode_utf8(a));
    assert(encode_utf8(s).subrange(i, encode_utf8(s).len() as int) =~= encode_utf8(b));
    if i < encode_utf8(s).len() {
        assert(encode_utf8(s)[i] == encode_utf8(b)[0]);
    }
}

/// Whether `s` starts with `prefix`.
pub fn has_prefix(s: &str, prefix: &str) -> (r: bool)
    ensures
        r == prefix@.is_prefix_of(s@),
{
    let n = prefix.unicode_len();
    if s.unicode_len() < n {
        return false;
    }
    let head = s.substring_char(0, n);
    let r = str_eq(head, prefix);
    assert(prefix@.is_prefix_of(s@) <==> head@ =~= prefix@);
    r
}

// ── Case ─────────────────────────────────────────────────────────────────────

/// The lowercase equivalent of a text under Unicode.
pub uninterp spec fn lowercase(s: Seq<char>) -> Seq<char>;

/// The lowercase equivalent of an ASCII character.
pub open spec fn ascii_lower(c: char) -> char {
    if 'A' <= c && c <= 'Z' {
        (c as u8 + 32) as char
    } else {
        c
    }
}

/// `str::to_lowercase` depends on the text alone. On ASCII text it replaces each
/// capital letter by its small letter; what it does elsewhere is left open.
pub assume_specification[ str::to_lowercase ](s: &str) -> (r: std::string::String)
    ensures
        r@ == lowercase(s@),
        is_ascii_chars(s@) ==> r@ == s@.map_values(|c: char| ascii_lower(c)),
;

// ── White space ──────────────────────────────────────────────────────────────

/// The characters with the Unicode property `White_Space`.
pub open spec fn white_space(c: char) -> bool {
    let n = c as u32;
    0x9 <= n <= 0xd || n == 0x20 || n == 0x85 || n == 0xa0 || n == 0x1680 || 0x2000 <= n <= 0x200a
        || n == 0x2028 || n == 0x2029 || n == 0x202f || n == 0x205f || n == 0x3000
}

/// `s` without the white space at its end.
pub open spec fn trimmed_end(s: Seq<char>) -> Seq<char>
    decreases s.len(),
{
    if s.len() > 0 && white_space(s.last()) {
        trimmed_end(s.drop_last())
    } else {
        s
    }
}

/// `s` without the white space at its start.
pub open spec fn trimmed_start(s: Seq<char>) -> Seq<char>
    decreases s.len(),
{
    if s.len() > 0 && white_space(s[0]) {
        trimmed_start(s.drop_first())
    } else {
        s
    }
}

/// `s` without the white space at either end.
pub open spec fn trimmed(s: Seq<char>) -> Seq<char> {
    trimmed_end(trimmed_start(s))
}

/// `str::trim` takes the characters with the property `White_Space` off both
/// ends.
pub assume_specification[ str::trim ](s: &str) -> (r: &str)
    ensures
        r@ == trimmed(s@),
;

/// `str::trim_end` takes the characters with the property `White_Space` off the
/// end.
pub assume_specification[ str::trim_end ](s: &str) -> (r: &str)
    ensures
        r@ == trimmed_end(s@),
;

// ── Building strings ─────────────────────────────────────────────────────────

/// `String::push` appends one character.
pub assume_specification[ std::string::String::push ](s: &mut std::string::String, c: char)
    ensures
        final(s)@ == old(s)@.push(c),
;

/// `a` and `b`, joined.
pub fn cat2(a: &str, b: &str) -> (r: String)
    ensures
        r@ == a@ + b@,
{
    let mut r = a.to_string();
    r.append(b);
    r
}

/// `a`, `b` and `c`, joined.
pub fn cat3(a: &str, b: &str, c: &str) -> (r: String)
    ensures
        r@ == a@ + b@ + c@,
{
    let mut r = a.to_string();
    r.append(b);
    r.append(c);
    r
}

/// `a`, `b`, `c` and `d`, joined.
pub fn cat4(a: &str, b: &str, c: &str, d: &str) -> (r: String)
    ensures
        r@ == a@ + b@ + c@ + d@,
{
    let mut r = a.to_string();
    r.append(b);
    r.append(c);
    r.append(d);
    r
}

/// Whether `text` is one of `words`.
pub open spec fn listed(words: Seq<&'static str>, text: Seq<char>) -> bool {
    exists|i: int| 0 <= i < words.len() && (#[trigger] words[i])@ == text
}

/// Whether `text` is one of `words`.
pub fn contains_word(words: &[&'static str], text: &str) -> (r: bool)
    ensures
        r == listed(words@, text@),
{
    let mut i: usize = 0;
    while i < words.len()
        invariant
            i <= words.len(),
            forall|k: int| 0 <= k < i ==> (#[trigger] words[k])@ != text@,
        decreases words.len() - i,
    {
        if str_eq(words[i], text) {
            return true;
        }
        i += 1;
    }
    false
}

/// Appends `words` to `out`.
pub fn append_words(out: &mut Vec<&'static str>, words: &[&'static str])
    ensures
        final(out)@ == old(out)@ + words@,
{
    let ghost before = out@;
    let mut i: usize = 0;
    while i < words.len()
        invariant
            i <= words.len(),
            out@ == before + words@.subrange(0, i as int),
        decreases words.len() - i,
    {
        out.push(words[i]);
        i += 1;
        assert(words@.subrange(0, i as int) =~= words@.subrange(0, i - 1).push(words@[i - 1]));
    }
    assert(words@.subrange(0, i as int) =~= words@);
}

} // verus!
