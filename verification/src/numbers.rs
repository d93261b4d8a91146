//! Integers in decimal notation.

use vstd::prelude::*;
use vstd::string::*;
use vstd::utf8::*;

verus! {

// ── Reading ──────────────────────────────────────────────────────────────────

/// Whether `b` is an ASCII digit.
pub open spec fn digit(b: u8) -> bool {
    '0' as u8 <= b <= '9' as u8
}

/// Whether all of `d` are ASCII digits.
pub open spec fn all_digits(d: Seq<u8>) -> bool {
    forall|i: int| 0 <= i < d.len() ==> digit(#[trigger] d[i])
}

/// The number that decimal digits write.
pub open spec fn digits_value(d: Seq<u8>) -> int
    decreases d.len(),
{
    if d.len() == 0 {
        0
    } else {
        digits_value(d.drop_last()) * 10 + (d.last() - '0' as u8)
    }
}

/// `b` without a sign in front.
pub open spec fn unsigned_part(b: Seq<u8>, sign: u8) -> Seq<u8> {
    if b.len() > 0 && b[0] == sign {
        b.drop_first()
    } else {
        b
    }
}

/// The number that `b` writes: digits, with a `+` in front at will, of a value
/// up to `max`.
pub open spec fn parse_unsigned(b: Seq<u8>, max: int) -> Option<int> {
    let d = unsigned_part(b, '+' as u8);
    if d.len() > 0 && all_digits(d) && digits_value(d) <= max {
        Some(digits_value(d))
    } else {
        None
    }
}

/// The number that `b` writes: as `parse_unsigned`, or negative behind a `-`.
pub open spec fn parse_signed(b: Seq<u8>, min: int, max: int) -> Option<int> {
    if b.len() > 0 && b[0] == '-' as u8 {
        let d = b.drop_first();
        if d.len() > 0 && all_digits(d) && -digits_value(d) >= min {
            Some(-digits_value(d))
        } else {
            None
        }
    } else {
        parse_unsigned(b, max)
    }
}

/// A longer number is not smaller.
pub proof fn lemma_digits_value_prefix(d: Seq<u8>, n: int)
    requires
        all_digits(d),
        0 <= n <= d.len(),
    ensures
        0 <= digits_value(d.take(n)) <= digits_value(d),
    decreases d.len(),
{
    if n == d.len() {
        assert(d.take(n) =~= d);
        if n > 0 {
            let init = d.drop_last();
            assert(all_digits(init)) by {
                assert forall|i: int| 0 <= i < init.len() implies digit(#[trigger] init[i]) by {
                    assert(init[i] == d[i]);
                }
            }
            lemma_digits_value_prefix(init, n - 1);
            assert(init.take(n - 1) =~= init);
            assert(digit(d[n - 1]));
        }
    } else {
        let init = d.drop_last();
        assert(all_digits(init)) by {
            assert forall|i: int| 0 <= i < init.len() implies digit(#[trigger] init[i]) by {
                assert(init[i] == d[i]);
            }
        }
        lemma_digits_value_prefix(init, n);
        assert(init.take(n) =~= d.take(n));
        assert(digit(d[d.len() - 1]));
    }
}

/// Reads the digits `b[start..]` as a number up to `max`.
fn read_digits(b: &[u8], start: usize, max: u64) -> (r: Option<u64>)
    requires
        start <= b.len(),
    ensures
        ({
            let d = b@.skip(start as int);
            match r {
                Some(v) => d.len() > 0 && all_digits(d) && digits_value(d) == v && v <= max,
                None => !(d.len() > 0 && all_digits(d) && digits_value(d) <= max),
            }
        }),
{
    let ghost d = b@.skip(start as int);
    if start == b.len() {
        return None;
    }
    let mut value: u64 = 0;
    let mut i: usize = start;
    while i < b.len()
        invariant
            start <= i <= b.len(),
            d == b@.skip(start as int),
            value == digits_value(d.take(i - start)),
            value <= max,
            forall|k: int| 0 <= k < i - start ==> digit(#[trigger] d[k]),
        decreases b.len() - i,
    {
        let c = b[i];
        assert(d[i - start] == c);
        if c < '0' as u8 || c > '9' as u8 {
            assert(!digit(d[i - start]));
            return None;
        }
        proof {
            let upto = d.take(i - start + 1);
            assert(upto.drop_last() =~= d.take(i - start));
            assert(upto.last() == c);
        }
        let wide: u128 = value as u128 * 10 + (c - '0' as u8) as u128;
        if wide > max as u128 {
            proof {
                if all_digits(d) {
                    lemma_digits_value_prefix(d, i - start + 1);
                }
            }
            return None;
        }
        value = wide as u64;
        i += 1;
    }
    assert(d.take(i - start) =~= d);
    Some(value)
}

/// Parses a `u64`.
pub fn parse_u64(s: &str) -> (r: Option<u64>)
    ensures
        match r {
            Some(v) => parse_unsigned(s.spec_bytes(), u64::MAX as int) == Some(v as int),
            None => parse_unsigned(s.spec_bytes(), u64::MAX as int) is None,
        },
{
    let b = s.as_bytes();
    if b.len() > 0 && b[0] == '+' as u8 {
        assert(b@.drop_first() =~= b@.skip(1));
        read_digits(b, 1, u64::MAX)
    } else {
        assert(b@ =~= b@.skip(0));
        read_digits(b, 0, u64::MAX)
    }
}

/// Parses an `i64`.
pub fn parse_i64(s: &str) -> (r: Option<i64>)
    ensures
        match r {
            Some(v) => parse_signed(s.spec_bytes(), i64::MIN as int, i64::MAX as int) == Some(
                v as int,
            ),
            None => parse_signed(s.spec_bytes(), i64::MIN as int, i64::MAX as int) is None,
        },
{
    let b = s.as_bytes();
    if b.len() > 0 && b[0] == '-' as u8 {
        assert(b@.drop_first() =~= b@.skip(1));
        match read_digits(b, 1, 0x8000_0000_0000_0000) {
            Some(v) => if v == 0x8000_0000_0000_0000 {
                Some(i64::MIN)
            } else {
                Some(-(v as i64))
            },
            None => None,
        }
    } else {
        let start: usize = if b.len() > 0 && b[0] == '+' as u8 {
            1
        } else {
            0
        };
        assert(b@ =~= b@.skip(0));
        assert(b@.len() > 0 ==> b@.drop_first() =~= b@.skip(1));
        match read_digits(b, start, 0x7fff_ffff_ffff_ffff) {
            Some(v) => Some(v as i64),
            None => None,
        }
    }
}

// ── Writing ──────────────────────────────────────────────────────────────────

/// The character of a digit.
pub open spec fn digit_char(d: int) -> char {
    (48 + d) as u8 as char
}

/// A number in decimal notation.
pub open spec fn decimal(n: nat) -> Seq<char>
    decreases n,
{
    if n < 10 {
        seq![digit_char(n as int)]
    } else {
        decimal(n / 10).push(digit_char((n % 10) as int))
    }
}

/// `n` zeros.
pub open spec fn zeros(n: int) -> Seq<char>
    decreases n,
{
    if n <= 0 {
        seq![]
    } else {
        zeros(n - 1).push('0')
    }
}

/// A number in decimal notation, with zeros up to `width` behind its sign.
pub open spec fn padded(n: int, width: int) -> Seq<char> {
    if n >= 0 {
        zeros(width - decimal(n as nat).len()) + decimal(n as nat)
    } else {
        "-"@ + zeros(width - 1 - decimal((-n) as nat).len()) + decimal((-n) as nat)
    }
}

/// Writes a number in decimal notation.
pub fn decimal_string(n: u64) -> (r: String)
    ensures
        r@ == decimal(n as nat),
    decreases n,
{
    if n < 10 {
        let mut s = String::new();
        s.push((48 + n as u8) as char);
        assert(s@ =~= decimal(n as nat));
        s
    } else {
        let mut s = decimal_string(n / 10);
        s.push((48 + (n % 10) as u8) as char);
        s
    }
}

/// Writes a number with zeros up to `width`.
pub fn padded_string(n: i64, width: usize) -> (r: String)
    requires
        n > i64::MIN,
    ensures
        r@ == padded(n as int, width as int),
{
    let negative = n < 0;
    let digits = if negative {
        decimal_string((-n) as u64)
    } else {
        decimal_string(n as u64)
    };
    let mut s = String::new();
    if negative {
        s.append("-");
    }
    let used = digits.as_str().unicode_len();
    let limit: usize = if negative {
        if width > 0 {
            width - 1
        } else {
            0
        }
    } else {
        width
    };
    let fill: usize = if used < limit {
        limit - used
    } else {
        0
    };
    let ghost start = s@;
    let mut i: usize = 0;
    assert(start + zeros(0) =~= start);
    while i < fill
        invariant
            i <= fill,
            s@ == start + zeros(i as int),
        decreases fill - i,
    {
        s.push('0');
        i += 1;
        assert(start + zeros(i as int) =~= (start + zeros(i - 1)).push('0'));
    }
    s.append(digits.as_str());
    proof {
        if !negative {
            assert(start =~= seq![]);
            assert(s@ =~= padded(n as int, width as int));
        } else {
            assert(start =~= "-"@);
            assert(s@ =~= padded(n as int, width as int));
        }
    }
    s
}

/// Bytes of ASCII characters.
pub open spec fn ascii_bytes(s: Seq<char>) -> Seq<u8> {
    s.map_values(|c: char| c as u8)
}

/// What decimal notation writes: digits, of the number's value.
pub proof fn lemma_decimal(n: nat)
    ensures
        decimal(n).len() > 0,
        is_ascii_chars(decimal(n)),
        all_digits(ascii_bytes(decimal(n))),
        digits_value(ascii_bytes(decimal(n))) == n,
    decreases n,
{
    let d = decimal(n);
    let b = ascii_bytes(d);
    if n < 10 {
        assert(b.drop_last() =~= seq![]);
        assert(b.last() == (48 + n) as u8);
        assert(digits_value(b.drop_last()) == 0);
    } else {
        let m = n / 10;
        lemma_decimal(m);
        let c = digit_char((n % 10) as int);
        assert(b.drop_last() =~= ascii_bytes(decimal(m)));
        assert(b.last() == (48 + n % 10) as u8);
        assert forall|i: int| 0 <= i < d.len() implies (0 <= #[trigger] d[i] < 128) by {
            if i < d.len() - 1 {
                assert(d[i] == decimal(m)[i]);
            }
        }
        assert forall|i: int| 0 <= i < b.len() implies digit(#[trigger] b[i]) by {
            if i < b.len() - 1 {
                assert(b[i] == ascii_bytes(decimal(m))[i]);
            }
        }
    }
}

} // verus!
