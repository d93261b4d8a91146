//! Scanning bytes of a query.

use vstd::prelude::*;

verus! {

/// Classes of bytes that scanners skip over in runs.
#[derive(Clone, Copy, PartialEq, Eq, Structural)]
pub enum ByteClass {
    /// Space, tab, carriage return and newline
    Space,
    /// ASCII digits
    Digit,
    /// ASCII letters, digits and `_`
    Word,
    /// All but newline
    NotNewline,
    /// Space
    Blank,
    /// Space, tab and comma
    Separator,
}

impl ByteClass {
    /// Whether `b` is in the class.
    pub open spec fn has(self, b: u8) -> bool {
        match self {
            ByteClass::Space => b == ' ' as u8 || b == '\t' as u8 || b == '\r' as u8 || b == '\n' as u8,
            ByteClass::Digit => '0' as u8 <= b <= '9' as u8,
            ByteClass::Word => {
                '0' as u8 <= b <= '9' as u8 || 'a' as u8 <= b <= 'z' as u8 || 'A' as u8 <= b <= 'Z' as u8 || b == '_' as u8
            },
            ByteClass::NotNewline => b != '\n' as u8,
            ByteClass::Blank => b == ' ' as u8,
            ByteClass::Separator => b == ' ' as u8 || b == '\t' as u8 || b == ',' as u8,
        }
    }

    /// Whether `b` is in the class.
    pub fn test(self, b: u8) -> (r: bool)
        ensures
            r == self.has(b),
    {
        match self {
            ByteClass::Space => b == ' ' as u8 || b == '\t' as u8 || b == '\r' as u8 || b == '\n' as u8,
            ByteClass::Digit => '0' as u8 <= b && b <= '9' as u8,
            ByteClass::Word => {
                '0' as u8 <= b && b <= '9' as u8 || 'a' as u8 <= b && b <= 'z' as u8 || 'A' as u8 <= b && b <= 'Z' as u8 || b
                    == '_' as u8
            },
            ByteClass::NotNewline => b != '\n' as u8,
            ByteClass::Blank => b == ' ' as u8,
            ByteClass::Separator => b == ' ' as u8 || b == '\t' as u8 || b == ',' as u8,
        }
    }
}

/// The end of the longest run of bytes of `class` that starts at `pos`.
pub open spec fn run_end(b: Seq<u8>, pos: int, class: ByteClass) -> int
    decreases b.len() - pos,
{
    if 0 <= pos < b.len() && class.has(b[pos]) {
        run_end(b, pos + 1, class)
    } else {
        pos
    }
}

pub proof fn lemma_run_end(b: Seq<u8>, pos: int, class: ByteClass)
    requires
        0 <= pos <= b.len(),
    ensures
        pos <= run_end(b, pos, class) <= b.len(),
        forall|i: int| pos <= i < run_end(b, pos, class) ==> class.has(#[trigger] b[i]),
        run_end(b, pos, class) < b.len() ==> !class.has(b[run_end(b, pos, class)]),
    decreases b.len() - pos,
{
    if pos < b.len() && class.has(b[pos]) {
        lemma_run_end(b, pos + 1, class);
    }
}

pub fn skip_run(bytes: &[u8], pos: usize, class: ByteClass) -> (end: usize)
    requires
        pos <= bytes.len(),
    ensures
        end == run_end(bytes@, pos as int, class),
        pos <= end <= bytes.len(),
{
    let mut p: usize = pos;
    while p < bytes.len() && class.test(bytes[p])
        invariant
            pos <= p <= bytes.len(),
            run_end(bytes@, pos as int, class) == run_end(bytes@, p as int, class),
        decreases bytes.len() - p,
    {
        p += 1;
    }
    p
}

/// Where a quoted text ends whose body starts at `pos`, and whether it is closed
/// by `delim`. With `escapes`, a backslash takes the byte behind it along.
pub open spec fn quoted_end(b: Seq<u8>, pos: int, delim: u8, escapes: bool) -> (int, bool)
    decreases b.len() - pos,
{
    if pos < 0 || pos >= b.len() {
        (b.len() as int, false)
    } else if b[pos] == '\\' as u8 && escapes {
        if pos + 2 < b.len() {
            quoted_end(b, pos + 2, delim, escapes)
        } else {
            (b.len() as int, false)
        }
    } else if b[pos] == delim {
        (pos + 1, true)
    } else {
        quoted_end(b, pos + 1, delim, escapes)
    }
}

/// A closed text ends behind its delimiter, an unclosed one at the end.
pub proof fn lemma_quoted_end(b: Seq<u8>, pos: int, delim: u8, escapes: bool)
    requires
        0 <= pos <= b.len(),
    ensures
        ({
            let (end, closed) = quoted_end(b, pos, delim, escapes);
            &&& pos <= end <= b.len()
            &&& closed ==> pos < end && b[end - 1] == delim
            &&& !closed ==> end == b.len()
        }),
    decreases b.len() - pos,
{
    if pos < b.len() {
        if b[pos] == '\\' as u8 && escapes {
            if pos + 2 < b.len() {
                lemma_quoted_end(b, pos + 2, delim, escapes);
            }
        } else if b[pos] != delim {
            lemma_quoted_end(b, pos + 1, delim, escapes);
        }
    }
}

/// Finds the end of a quoted text.
pub fn skip_quoted(bytes: &[u8], pos: usize, delim: u8, escapes: bool) -> (r: (usize, bool))
    requires
        pos <= bytes.len(),
    ensures
        (r.0 as int, r.1) == quoted_end(bytes@, pos as int, delim, escapes),
        pos <= r.0 <= bytes.len(),
        r.1 ==> pos < r.0 && bytes@[r.0 - 1] == delim,
{
    proof {
        lemma_quoted_end(bytes@, pos as int, delim, escapes);
    }
    let mut p: usize = pos;
    while p < bytes.len()
        invariant
            pos <= p <= bytes.len(),
            quoted_end(bytes@, pos as int, delim, escapes) == quoted_end(
                bytes@,
                p as int,
                delim,
                escapes,
            ),
            ({
                let (end, closed) = quoted_end(bytes@, pos as int, delim, escapes);
                closed ==> pos < end && bytes@[end - 1] == delim
            }),
        decreases bytes.len() - p,
    {
        if bytes[p] == '\\' as u8 && escapes {
            if bytes.len() - p <= 2 {
                return (bytes.len(), false);
            }
            p += 2;
        } else if bytes[p] == delim {
            return (p + 1, true);
        } else {
            p += 1;
        }
    }
    (p, false)
}

/// Whether `c` is one of `bytes`.
pub fn contains_byte(bytes: &[u8], c: u8) -> (r: bool)
    ensures
        r == bytes@.contains(c),
{
    let mut i: usize = 0;
    while i < bytes.len()
        invariant
            i <= bytes.len(),
            forall|k: int| 0 <= k < i ==> bytes@[k] != c,
        decreases bytes.len() - i,
    {
        if bytes[i] == c {
            assert(bytes@[i as int] == c);
            return true;
        }
        i += 1;
    }
    false
}

} // verus!
